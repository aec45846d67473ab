//! Dice: rolling them, and the total and formula of a damage roll.

use rand::Rng;
use vstd::prelude::*;
use crate::text::{
    all_digits,
    decimal,
    digit_value,
    digits_value,
    int_text,
    is_digit,
    lemma_decimal_round_trip,
    lemma_digits_value_prefix,
    push_int,
};

verus! {

/// A number drawn at random: calls `rand::Rng::random_range` on the thread's
/// generator with the range from `low` to `high`, both included. The
/// contract claims that the number lies in that range, and nothing of how
/// the numbers are spread; the range must not be empty, since the call
/// panics on an empty one.
#[verifier::external_body]
fn random_between(low: i32, high: i32) -> (r: i32)
    requires
        low <= high,
    ensures
        low <= r <= high,
{
    rand::rngs::ThreadRng::default().random_range(low..=high)
}

/// The number of sides that a die of size `die` is rolled with: a die of
/// less than one side has one.
pub open spec fn die_sides(die: int) -> int {
    if die < 1 {
        1
    } else {
        die
    }
}

/// `s` without the `d`s it starts with.
pub open spec fn without_d(s: Seq<char>) -> Seq<char>
    decreases s.len(),
{
    if s.len() > 0 && s[0] == 'd' {
        without_d(s.drop_first())
    } else {
        s
    }
}

/// The integer that `s` denotes: numeral characters, at least one, behind
/// at most one sign; `None` for anything else, and for a number that a
/// 32-bit integer does not hold.
pub open spec fn signed_value(s: Seq<char>) -> Option<int> {
    let digits = if s.len() > 0 && (s[0] == '-' || s[0] == '+') {
        s.drop_first()
    } else {
        s
    };
    let value = if s.len() > 0 && s[0] == '-' {
        -(digits_value(digits) as int)
    } else {
        digits_value(digits) as int
    };
    if digits.len() > 0 && all_digits(digits) && -2147483648 <= value <= 2147483647 {
        Some(value)
    } else {
        None
    }
}

/// The size of the die that `text` denotes: the integer behind the `d`s
/// that it starts with; 1 where no integer stands there.
pub open spec fn die_of(text: Seq<char>) -> int {
    match signed_value(without_d(text)) {
        Some(v) => v,
        None => 1,
    }
}

/// The text that denotes a die of size `die`: a `d` and the size.
pub open spec fn die_text(die: int) -> Seq<char> {
    seq!['d'] + int_text(die)
}

/// The number of dice rolled where `count` are asked for.
pub open spec fn dice_rolled(count: int) -> nat {
    if count < 0 {
        0
    } else {
        count as nat
    }
}

/// Whether `rolls` can come of rolling `count` dice of size `die`.
pub open spec fn valid_rolls(rolls: Seq<i32>, count: int, die: int) -> bool {
    &&& rolls.len() == dice_rolled(count)
    &&& forall|i: int| 0 <= i < rolls.len() ==> 1 <= #[trigger] rolls[i] <= die_sides(die)
}

/// The sum of `rolls`.
pub open spec fn rolls_sum(rolls: Seq<i32>) -> int
    decreases rolls.len(),
{
    if rolls.len() == 0 {
        0
    } else {
        rolls_sum(rolls.drop_last()) + rolls.last()
    }
}

/// The rolls, joined by `" + "`.
pub open spec fn rolls_text(rolls: Seq<i32>) -> Seq<char>
    decreases rolls.len(),
{
    if rolls.len() == 0 {
        Seq::empty()
    } else if rolls.len() == 1 {
        int_text(rolls[0] as int)
    } else {
        rolls_text(rolls.drop_last()) + " + "@ + int_text(rolls.last() as int)
    }
}

/// The total of a damage roll: the rolls and the modifier.
pub open spec fn damage_total(rolls: Seq<i32>, modifier: int) -> int {
    rolls_sum(rolls) + modifier
}

/// What of a damage roll stands before the total: the rolls, and the
/// modifier where it is not zero or nothing was rolled.
pub open spec fn damage_terms(rolls: Seq<i32>, modifier: int) -> Seq<char> {
    if rolls.len() == 0 {
        int_text(modifier)
    } else if modifier != 0 {
        rolls_text(rolls) + " + "@ + int_text(modifier)
    } else {
        rolls_text(rolls)
    }
}

/// The formula of a damage roll: its terms, `" = "` and the total.
pub open spec fn damage_formula(rolls: Seq<i32>, modifier: int) -> Seq<char> {
    damage_terms(rolls, modifier) + " = "@ + int_text(damage_total(rolls, modifier))
}

/// The sum of rolls lies between the least and the most that the dice show.
pub proof fn lemma_rolls_sum_bounds(rolls: Seq<i32>, low: int, high: int)
    requires
        forall|i: int| 0 <= i < rolls.len() ==> low <= #[trigger] rolls[i] <= high,
    ensures
        rolls.len() * low <= rolls_sum(rolls) <= rolls.len() * high,
    decreases rolls.len(),
{
    if rolls.len() > 0 {
        let head = rolls.drop_last();
        lemma_rolls_sum_bounds(head, low, high);
        assert(rolls.len() * low == head.len() * low + low) by (nonlinear_arith)
            requires
                rolls.len() == head.len() + 1,
        ;
        assert(rolls.len() * high == head.len() * high + high) by (nonlinear_arith)
            requires
                rolls.len() == head.len() + 1,
        ;
    }
}

/// The text of a die denotes that die.
pub proof fn lemma_die_text_denotes(die: int)
    requires
        -2147483648 <= die <= 2147483647,
    ensures
        die_of(die_text(die)) == die,
{
    let text = die_text(die);
    let number = int_text(die);
    let magnitude = if die < 0 {
        (-die) as nat
    } else {
        die as nat
    };
    lemma_decimal_round_trip(magnitude);
    assert(text.drop_first() =~= number);
    assert(number[0] != 'd') by {
        if die >= 0 {
            assert(is_digit(decimal(magnitude)[0]));
        }
    }
    assert(without_d(number) == number);
    assert(without_d(text) == number);
    if die < 0 {
        assert(number.drop_first() =~= decimal(magnitude));
    } else {
        assert(is_digit(decimal(magnitude)[0]));
    }
}

/// The size of the die that `text` denotes, as in `d6`; 1 where `text`
/// denotes none.
pub fn die_from_text(text: &str) -> (r: i32)
    ensures
        r as int == die_of(text@),
{
    let n = text.unicode_len();
    let mut i: usize = 0;
    let mut stopped = false;
    assert(text@.skip(0) =~= text@);
    while i < n && !stopped
        invariant
            i <= n,
            n == text@.len(),
            without_d(text@) == without_d(text@.skip(i as int)),
            stopped ==> i < n && text@[i as int] != 'd',
        decreases n - i + (if stopped { 0int } else { 1int }),
    {
        if text.get_char(i) == 'd' {
            assert(text@.skip(i as int).drop_first() =~= text@.skip(i + 1));
            i += 1;
        } else {
            stopped = true;
        }
    }
    let ghost rest = text@.skip(i as int);
    assert(without_d(text@) == rest);
    if i == n {
        return 1;
    }
    let first = text.get_char(i);
    let negative = first == '-';
    let start: usize = if first == '-' || first == '+' {
        i + 1
    } else {
        i
    };
    let ghost digits = text@.skip(start as int);
    assert(digits =~= if rest[0] == '-' || rest[0] == '+' {
        rest.drop_first()
    } else {
        rest
    });
    if start == n {
        return 1;
    }
    let mut value: i64 = 0;
    let mut j: usize = start;
    assert(digits.take(0) =~= Seq::<char>::empty());
    while j < n
        invariant
            start <= j <= n,
            n == text@.len(),
            digits == text@.skip(start as int),
            rest.len() > 0,
            without_d(text@) == rest,
            negative == (rest[0] == '-'),
            digits == (if rest[0] == '-' || rest[0] == '+' {
                rest.drop_first()
            } else {
                rest
            }),
            all_digits(digits.take(j - start)),
            value as nat == digits_value(digits.take(j - start)),
            0 <= value <= 2147483648,
        decreases n - j,
    {
        let c = text.get_char(j);
        let ghost k = j - start;
        assert(digits[k] == c);
        assert(digits.take(k + 1).drop_last() =~= digits.take(k));
        match digit_value(c) {
            None => {
                return 1;
            },
            Some(d) => {
                value = value * 10 + d;
                if value > 2147483648 {
                    proof {
                        lemma_digits_value_prefix(digits, k + 1);
                    }
                    return 1;
                }
            },
        }
        j += 1;
    }
    assert(digits.take(n - start) =~= digits);
    if negative {
        (-value) as i32
    } else if value == 2147483648 {
        1
    } else {
        value as i32
    }
}

/// The text that denotes a die of size `die`.
pub fn die_to_text(die: i32) -> (r: String)
    ensures
        r@ == die_text(die as int),
{
    proof {
        reveal_strlit("d");
    }
    let mut r = String::from_str("d");
    push_int(&mut r, die as i128);
    assert(r@ =~= die_text(die as int));
    r
}

/// Rolls one die of size `die`: a number from 1 to the number of its sides.
pub fn roll_die(die: i32) -> (r: i32)
    ensures
        1 <= r <= die_sides(die as int),
{
    if die < 1 {
        random_between(1, 1)
    } else {
        random_between(1, die)
    }
}

/// Rolls `count` dice of size `die`, each on its own.
pub fn roll_dice(count: i64, die: i32) -> (rolls: Vec<i32>)
    ensures
        valid_rolls(rolls@, count as int, die as int),
{
    let mut rolls: Vec<i32> = Vec::new();
    let mut i: i64 = 0;
    while i < count
        invariant
            0 <= i,
            i <= count || i == 0,
            rolls@.len() == i,
            forall|j: int|
                0 <= j < rolls@.len() ==> 1 <= #[trigger] rolls@[j] <= die_sides(die as int),
        decreases count - i,
    {
        let r = roll_die(die);
        rolls.push(r);
        i += 1;
    }
    rolls
}

/// The total and the formula of a damage roll that showed `rolls`, with
/// `flat_modifier` added.
pub fn damage_result(rolls: &Vec<i32>, flat_modifier: i32) -> (r: (i128, String))
    ensures
        r.0 as int == damage_total(rolls@, flat_modifier as int),
        r.1@ == damage_formula(rolls@, flat_modifier as int),
{
    let mut total: i128 = 0;
    let mut text = String::new();
    let mut i: usize = 0;
    assert(rolls@.take(0) =~= Seq::<i32>::empty());
    while i < rolls.len()
        invariant
            i <= rolls.len(),
            total as int == rolls_sum(rolls@.take(i as int)),
            -2147483648 * i <= total <= 2147483647 * i,
            text@ == rolls_text(rolls@.take(i as int)),
        decreases rolls.len() - i,
    {
        let ghost head = rolls@.take(i as int);
        let ghost next = rolls@.take(i + 1);
        assert(next.drop_last() =~= head);
        assert(next.last() == rolls@[i as int]);
        if i > 0 {
            text.append(" + ");
        }
        push_int(&mut text, rolls[i] as i128);
        total = total + (rolls[i] as i128);
        assert(text@ =~= rolls_text(next)) by {
            if i == 0 {
                assert(text@ =~= int_text(rolls@[0] as int));
            }
        }
        i += 1;
    }
    assert(rolls@.take(i as int) =~= rolls@);
    if rolls.len() == 0 {
        push_int(&mut text, flat_modifier as i128);
    } else if flat_modifier != 0 {
        text.append(" + ");
        push_int(&mut text, flat_modifier as i128);
    }
    assert(text@ =~= damage_terms(rolls@, flat_modifier as int));
    total = total + (flat_modifier as i128);
    text.append(" = ");
    push_int(&mut text, total);
    (total, text)
}

/// Rolls damage: `dice_count` dice of size `die_size`, and `flat_modifier`
/// added. Returns the total and the formula. Whatever the dice show, the
/// total lies between the modifier plus one per die and the modifier plus
/// the die's size per die.
pub fn roll_damage(dice_count: i64, die_size: i32, flat_modifier: i32) -> (r: (i128, String))
    ensures
        exists|rolls: Seq<i32>|
            valid_rolls(rolls, dice_count as int, die_size as int) && r.0 as int
                == #[trigger] damage_total(rolls, flat_modifier as int) && r.1@
                == damage_formula(rolls, flat_modifier as int),
        dice_rolled(dice_count as int) + flat_modifier <= r.0 <= dice_rolled(dice_count as int)
            * die_sides(die_size as int) + flat_modifier,
{
    let rolls = roll_dice(dice_count, die_size);
    proof {
        lemma_rolls_sum_bounds(rolls@, 1, die_sides(die_size as int));
    }
    damage_result(&rolls, flat_modifier)
}

} // verus!
