//! Text of numbers and names: decimal numerals, the ordinal that an instance
//! name carries, and the order in which names are sorted.

use vstd::prelude::*;

verus! {

/// The numeral character of a digit below ten.
pub open spec fn digit_char(d: nat) -> char {
    if d == 0 {
        '0'
    } else if d == 1 {
        '1'
    } else if d == 2 {
        '2'
    } else if d == 3 {
        '3'
    } else if d == 4 {
        '4'
    } else if d == 5 {
        '5'
    } else if d == 6 {
        '6'
    } else if d == 7 {
        '7'
    } else if d == 8 {
        '8'
    } else {
        '9'
    }
}

/// Whether `c` is one of the ten numeral characters.
pub open spec fn is_digit(c: char) -> bool {
    c == '0' || c == '1' || c == '2' || c == '3' || c == '4' || c == '5' || c == '6' || c == '7'
        || c == '8' || c == '9'
}

/// The digit that a numeral character stands for (0 for any other character).
pub open spec fn digit_of(c: char) -> nat {
    if c == '1' {
        1
    } else if c == '2' {
        2
    } else if c == '3' {
        3
    } else if c == '4' {
        4
    } else if c == '5' {
        5
    } else if c == '6' {
        6
    } else if c == '7' {
        7
    } else if c == '8' {
        8
    } else if c == '9' {
        9
    } else {
        0
    }
}

/// The decimal numeral of `n`, without leading zeros.
pub open spec fn decimal(n: nat) -> Seq<char>
    decreases n,
{
    if n < 10 {
        seq![digit_char(n)]
    } else {
        decimal(n / 10).push(digit_char(n % 10))
    }
}

/// The decimal numeral of an integer; a negative one starts with `-`.
pub open spec fn int_text(v: int) -> Seq<char> {
    if v < 0 {
        seq!['-'] + decimal((-v) as nat)
    } else {
        decimal(v as nat)
    }
}

/// The number that a sequence of numeral characters denotes.
pub open spec fn digits_value(s: Seq<char>) -> nat
    decreases s.len(),
{
    if s.len() == 0 {
        0
    } else {
        digits_value(s.drop_last()) * 10 + digit_of(s.last())
    }
}

/// Whether every character of `s` is a numeral character.
pub open spec fn all_digits(s: Seq<char>) -> bool {
    forall|i: int| 0 <= i < s.len() ==> is_digit(#[trigger] s[i])
}

/// The largest ordinal that is read back from an instance name.
pub const MAX_ORDINAL: u64 = 4_294_967_295;

/// Whether `instance` is `name`, one space and a non-empty run of numerals.
pub open spec fn is_numbered(instance: Seq<char>, name: Seq<char>) -> bool {
    &&& instance.len() > name.len() + 1
    &&& instance.take(name.len() as int) == name
    &&& instance[name.len() as int] == ' '
    &&& all_digits(instance.skip(name.len() as int + 1))
}

/// The ordinal that the instance name `instance` holds among the instances of
/// the template called `name`: 1 for the bare name, the number behind the
/// name where there is one (up to `MAX_ORDINAL`), and 0 otherwise.
pub open spec fn ordinal_of(instance: Seq<char>, name: Seq<char>) -> nat {
    if instance == name {
        1
    } else if is_numbered(instance, name) && digits_value(
        instance.skip(name.len() as int + 1),
    ) <= MAX_ORDINAL {
        digits_value(instance.skip(name.len() as int + 1))
    } else {
        0
    }
}

/// The name of the instance with ordinal `k` of the template called `name`.
pub open spec fn numbered_name(name: Seq<char>, k: nat) -> Seq<char> {
    name + seq![' '] + decimal(k)
}

/// The order of names: character by character, by code point; a proper
/// prefix comes first.
pub open spec fn text_le(a: Seq<char>, b: Seq<char>) -> bool
    decreases a.len(),
{
    if a.len() == 0 {
        true
    } else if b.len() == 0 {
        false
    } else if a[0] != b[0] {
        (a[0] as int) < (b[0] as int)
    } else {
        text_le(a.drop_first(), b.drop_first())
    }
}

/// A prefix of a numeral sequence denotes no more than the whole.
pub proof fn lemma_digits_value_prefix(s: Seq<char>, k: int)
    requires
        0 <= k <= s.len(),
    ensures
        digits_value(s.take(k)) <= digits_value(s),
    decreases s.len() - k,
{
    if k == s.len() {
        assert(s.take(k) =~= s);
    } else {
        lemma_digits_value_prefix(s.drop_last(), k);
        assert(s.drop_last().take(k) =~= s.take(k));
    }
}

/// The numeral of `n` consists of numeral characters and denotes `n`.
pub proof fn lemma_decimal_round_trip(n: nat)
    ensures
        decimal(n).len() >= 1,
        all_digits(decimal(n)),
        digits_value(decimal(n)) == n,
    decreases n,
{
    if n < 10 {
        assert(decimal(n).drop_last() =~= Seq::<char>::empty());
        assert(digits_value(decimal(n).drop_last()) == 0);
    } else {
        lemma_decimal_round_trip(n / 10);
        assert(decimal(n).drop_last() =~= decimal(n / 10));
    }
}

/// Different numbers have different numerals.
pub proof fn lemma_decimal_injective(a: nat, b: nat)
    requires
        decimal(a) == decimal(b),
    ensures
        a == b,
{
    lemma_decimal_round_trip(a);
    lemma_decimal_round_trip(b);
}

/// A numbered name tells its template name and its ordinal: two of them
/// are equal only where both names and both ordinals are.
pub proof fn lemma_numbered_name_unique(n1: Seq<char>, a: nat, n2: Seq<char>, b: nat)
    requires
        numbered_name(n1, a) == numbered_name(n2, b),
    ensures
        n1 == n2,
        a == b,
{
    let s = numbered_name(n1, a);
    lemma_decimal_round_trip(a);
    lemma_decimal_round_trip(b);
    assert(s.len() == n1.len() + 1 + decimal(a).len());
    assert(numbered_name(n2, b).len() == n2.len() + 1 + decimal(b).len());
    if n1.len() < n2.len() {
        let i = n2.len() - n1.len() - 1;
        assert(numbered_name(n2, b)[n2.len() as int] == ' ');
        assert(s[n2.len() as int] == decimal(a)[i]);
        assert(is_digit(decimal(a)[i]));
    } else if n2.len() < n1.len() {
        let i = n1.len() - n2.len() - 1;
        assert(s[n1.len() as int] == ' ');
        assert(numbered_name(n2, b)[n1.len() as int] == decimal(b)[i]);
        assert(is_digit(decimal(b)[i]));
    } else {
        assert(n1 =~= s.take(n1.len() as int));
        assert(n2 =~= numbered_name(n2, b).take(n2.len() as int));
        assert(decimal(a) =~= s.skip(n1.len() as int + 1));
        assert(decimal(b) =~= numbered_name(n2, b).skip(n2.len() as int + 1));
        lemma_decimal_injective(a, b);
    }
}

/// The ordinal of a numbered name is read back as it was written, up to
/// `MAX_ORDINAL`.
pub proof fn lemma_ordinal_of_numbered(name: Seq<char>, k: nat)
    requires
        k <= MAX_ORDINAL,
    ensures
        ordinal_of(numbered_name(name, k), name) == k,
        numbered_name(name, k) != name,
{
    let s = numbered_name(name, k);
    lemma_decimal_round_trip(k);
    assert(s.len() == name.len() + 1 + decimal(k).len());
    assert(s.take(name.len() as int) =~= name);
    assert(s[name.len() as int] == ' ');
    assert(s.skip(name.len() as int + 1) =~= decimal(k));
}

/// Of two names, one is not after the other.
pub proof fn lemma_text_le_total(a: Seq<char>, b: Seq<char>)
    ensures
        text_le(a, b) || text_le(b, a),
    decreases a.len(),
{
    if a.len() > 0 && b.len() > 0 {
        if a[0] == b[0] {
            lemma_text_le_total(a.drop_first(), b.drop_first());
        }
    }
}

/// The order of names is transitive.
pub proof fn lemma_text_le_transitive(a: Seq<char>, b: Seq<char>, c: Seq<char>)
    requires
        text_le(a, b),
        text_le(b, c),
    ensures
        text_le(a, c),
    decreases a.len(),
{
    if a.len() > 0 && b.len() > 0 && c.len() > 0 && a[0] == b[0] && b[0] == c[0] {
        lemma_text_le_transitive(a.drop_first(), b.drop_first(), c.drop_first());
    }
}

/// Whether `s` is a numeral as `decimal` writes it: numeral characters, at
/// least one, and no zero before another.
pub open spec fn is_numeral(s: Seq<char>) -> bool {
    &&& s.len() >= 1
    &&& all_digits(s)
    &&& (s.len() == 1 || s[0] != '0')
}

/// The numeral of a number is a numeral.
pub proof fn lemma_decimal_is_numeral(n: nat)
    ensures
        is_numeral(decimal(n)),
        n >= 1 ==> decimal(n)[0] != '0',
    decreases n,
{
    lemma_decimal_round_trip(n);
    if n >= 10 {
        lemma_decimal_is_numeral(n / 10);
        lemma_decimal_round_trip(n / 10);
        assert(decimal(n)[0] == decimal(n / 10)[0]);
    }
}

/// A numeral is the numeral of the number it denotes.
pub proof fn lemma_numeral_is_decimal(s: Seq<char>)
    requires
        is_numeral(s),
    ensures
        decimal(digits_value(s)) == s,
        s.len() > 1 ==> digits_value(s) >= 10,
        s[0] != '0' ==> digits_value(s) >= 1,
    decreases s.len(),
{
    let head = s.drop_last();
    assert(is_digit(s[s.len() - 1]));
    if s.len() == 1 {
        assert(head =~= Seq::<char>::empty());
        assert(digits_value(head) == 0);
        assert(decimal(digits_value(s)) =~= s);
    } else {
        assert(head[0] == s[0]);
        lemma_numeral_is_decimal(head);
        let v = digits_value(head);
        let d = digit_of(s.last());
        assert(digits_value(s) == v * 10 + d);
        assert((v * 10 + d) / 10 == v);
        assert((v * 10 + d) % 10 == d);
        assert(decimal(digits_value(s)) =~= s);
    }
}

/// Whether `name` ends in a space and a numeral.
pub open spec fn ends_in_numeral(name: Seq<char>) -> bool {
    exists|i: int| 0 <= i < name.len() && name[i] == ' ' && is_numeral(#[trigger] name.skip(i + 1))
}

/// The names that end in a space and a numeral are the numbered names.
pub proof fn lemma_ends_in_numeral(name: Seq<char>)
    ensures
        ends_in_numeral(name) <==> exists|p: Seq<char>, k: nat| name == #[trigger] numbered_name(p, k),
{
    if ends_in_numeral(name) {
        let i = choose|i: int|
            0 <= i < name.len() && name[i] == ' ' && is_numeral(#[trigger] name.skip(i + 1));
        let k = digits_value(name.skip(i + 1));
        lemma_numeral_is_decimal(name.skip(i + 1));
        assert(name =~= numbered_name(name.take(i), k));
    }
    if exists|p: Seq<char>, k: nat| name == #[trigger] numbered_name(p, k) {
        let (p, k) = choose|p: Seq<char>, k: nat| name == #[trigger] numbered_name(p, k);
        lemma_decimal_is_numeral(k);
        assert(name[p.len() as int] == ' ');
        assert(name.skip(p.len() as int + 1) =~= decimal(k));
    }
}

fn digit_str(d: u128) -> (r: &'static str)
    requires
        d < 10,
    ensures
        r@ == seq![digit_char(d as nat)],
{
    proof {
        reveal_strlit("0");
        reveal_strlit("1");
        reveal_strlit("2");
        reveal_strlit("3");
        reveal_strlit("4");
        reveal_strlit("5");
        reveal_strlit("6");
        reveal_strlit("7");
        reveal_strlit("8");
        reveal_strlit("9");
    }
    let r = if d == 0 {
        "0"
    } else if d == 1 {
        "1"
    } else if d == 2 {
        "2"
    } else if d == 3 {
        "3"
    } else if d == 4 {
        "4"
    } else if d == 5 {
        "5"
    } else if d == 6 {
        "6"
    } else if d == 7 {
        "7"
    } else if d == 8 {
        "8"
    } else {
        "9"
    };
    assert(r@ =~= seq![digit_char(d as nat)]);
    r
}

/// Appends the decimal numeral of `n` to `out`.
pub fn push_decimal(out: &mut String, n: u128)
    ensures
        final(out)@ == old(out)@ + decimal(n as nat),
    decreases n,
{
    if n >= 10 {
        push_decimal(out, n / 10);
    }
    out.append(digit_str(n % 10));
    assert(out@ =~= old(out)@ + decimal(n as nat));
}

/// Appends the decimal numeral of the integer `v` to `out`.
pub fn push_int(out: &mut String, v: i128)
    ensures
        final(out)@ == old(out)@ + int_text(v as int),
{
    if v < 0 {
        proof {
            reveal_strlit("-");
        }
        out.append("-");
        let magnitude: u128 = if v == i128::MIN {
            170_141_183_460_469_231_731_687_303_715_884_105_728u128
        } else {
            (-v) as u128
        };
        push_decimal(out, magnitude);
        assert(out@ =~= old(out)@ + int_text(v as int));
    } else {
        push_decimal(out, v as u128);
    }
}

/// The decimal numeral of the integer `v`.
pub fn int_string(v: i128) -> (r: String)
    ensures
        r@ == int_text(v as int),
{
    let mut r = String::new();
    push_int(&mut r, v);
    assert(r@ =~= int_text(v as int));
    r
}

/// The instance name with ordinal `k` under the template name `name`.
pub fn make_numbered_name(name: &String, k: u128) -> (r: String)
    ensures
        r@ == numbered_name(name@, k as nat),
{
    proof {
        reveal_strlit(" ");
    }
    let mut r = name.clone();
    r.append(" ");
    push_decimal(&mut r, k);
    assert(r@ =~= numbered_name(name@, k as nat));
    r
}

/// The digit that the character `c` stands for, if it is a numeral
/// character.
pub fn digit_value(c: char) -> (r: Option<i64>)
    ensures
        r.is_some() == is_digit(c),
        r.is_some() ==> r.unwrap() == digit_of(c),
{
    if c == '0' {
        Some(0)
    } else if c == '1' {
        Some(1)
    } else if c == '2' {
        Some(2)
    } else if c == '3' {
        Some(3)
    } else if c == '4' {
        Some(4)
    } else if c == '5' {
        Some(5)
    } else if c == '6' {
        Some(6)
    } else if c == '7' {
        Some(7)
    } else if c == '8' {
        Some(8)
    } else if c == '9' {
        Some(9)
    } else {
        None
    }
}

/// Reads the ordinal that `instance` holds under the template name `name`.
pub fn read_ordinal(instance: &str, name: &str) -> (r: u64)
    ensures
        r as nat == ordinal_of(instance@, name@),
        r <= MAX_ORDINAL,
{
    let m = instance.unicode_len();
    let n = name.unicode_len();
    if m < n {
        return 0;
    }
    let mut i: usize = 0;
    while i < n
        invariant
            i <= n <= m,
            n == name@.len(),
            m == instance@.len(),
            instance@.take(i as int) == name@.take(i as int),
        decreases n - i,
    {
        if instance.get_char(i) != name.get_char(i) {
            assert(instance@.take(n as int)[i as int] != name@[i as int]);
            return 0;
        }
        assert(instance@.take(i + 1) =~= instance@.take(i as int).push(instance@[i as int]));
        assert(name@.take(i + 1) =~= name@.take(i as int).push(name@[i as int]));
        i += 1;
    }
    assert(name@.take(n as int) =~= name@);
    if m == n {
        assert(instance@.take(n as int) =~= instance@);
        return 1;
    }
    if m == n + 1 {
        return 0;
    }
    if instance.get_char(n) != ' ' {
        return 0;
    }
    let ghost suffix = instance@.skip(n + 1);
    let mut value: u64 = 0;
    let mut j: usize = n + 1;
    assert(suffix.take(0) =~= Seq::<char>::empty());
    while j < m
        invariant
            n + 1 <= j <= m,
            n == name@.len(),
            m == instance@.len(),
            suffix == instance@.skip(n + 1),
            all_digits(suffix.take(j - (n + 1))),
            value as nat == digits_value(suffix.take(j - (n + 1))),
            value <= MAX_ORDINAL,
        decreases m - j,
    {
        let c = instance.get_char(j);
        let ghost k = j - (n + 1);
        assert(suffix[k] == c);
        assert(suffix.take(k + 1).drop_last() =~= suffix.take(k));
        match digit_value(c) {
            None => {
                return 0;
            },
            Some(d) => {
                value = value * 10 + (d as u64);
                if value > MAX_ORDINAL {
                    proof {
                        lemma_digits_value_prefix(suffix, k + 1);
                    }
                    return 0;
                }
            },
        }
        j += 1;
    }
    assert(suffix.take(m - (n + 1)) =~= suffix);
    value
}

/// Whether `name` ends in a space and a numeral, as the name of a numbered
/// instance does.
pub fn has_ordinal(name: &str) -> (r: bool)
    ensures
        r == ends_in_numeral(name@),
        r == exists|p: Seq<char>, k: nat| name@ == #[trigger] numbered_name(p, k),
{
    proof {
        lemma_ends_in_numeral(name@);
    }
    let n = name.unicode_len();
    let mut j: usize = n;
    let mut stopped = false;
    assert(name@.skip(n as int) =~= Seq::<char>::empty());
    while j > 0 && !stopped
        invariant
            j <= n,
            n == name@.len(),
            all_digits(name@.skip(j as int)),
            stopped ==> j > 0 && !is_digit(name@[j - 1]),
        decreases j + (if stopped { 0int } else { 1int }),
    {
        match digit_value(name.get_char(j - 1)) {
            None => {
                stopped = true;
            },
            Some(_) => {
                assert forall|q: int| 0 <= q < name@.skip(j - 1).len() implies is_digit(
                    #[trigger] name@.skip(j - 1)[q],
                ) by {
                    if q > 0 {
                        assert(name@.skip(j - 1)[q] == name@.skip(j as int)[q - 1]);
                    }
                }
                j -= 1;
            },
        }
    }
    // every place that a numeral could start behind a space is `j`
    assert forall|i: int|
        0 <= i < n && name@[i] == ' ' && is_numeral(#[trigger] name@.skip(i + 1)) implies i + 1
        == j && j < n by {
        let tail = name@.skip(i + 1);
        if i + 1 < j {
            assert(tail[j - 1 - (i + 1)] == name@[j - 1]);
        } else if i + 1 > j {
            assert(name@.skip(j as int)[i - j] == name@[i]);
        }
    }
    if j == n || j == 0 {
        return false;
    }
    if name.get_char(j - 1) != ' ' {
        return false;
    }
    if n - j > 1 && name.get_char(j) == '0' {
        assert(name@.skip(j as int)[0] == name@[j as int]);
        return false;
    }
    assert(name@.skip(j as int)[0] == name@[j as int]);
    assert(is_numeral(name@.skip((j - 1) + 1)));
    true
}

/// Whether `a` comes before or equals `b` in the order of names.
pub fn name_le(a: &str, b: &str) -> (r: bool)
    ensures
        r == text_le(a@, b@),
{
    let m = a.unicode_len();
    let n = b.unicode_len();
    let mut i: usize = 0;
    assert(a@.skip(0) =~= a@ && b@.skip(0) =~= b@);
    while i < m
        invariant
            i <= m,
            i <= n,
            m == a@.len(),
            n == b@.len(),
            text_le(a@, b@) == text_le(a@.skip(i as int), b@.skip(i as int)),
        decreases m - i,
    {
        if i == n {
            return false;
        }
        let x = a.get_char(i);
        let y = b.get_char(i);
        if x != y {
            return (x as u32) < (y as u32);
        }
        assert(a@.skip(i as int).drop_first() =~= a@.skip(i + 1));
        assert(b@.skip(i as int).drop_first() =~= b@.skip(i + 1));
        i += 1;
    }
    true
}

} // verus!
