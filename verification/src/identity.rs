//! Identity of combatants: why no two live combatants share a name.

use vstd::prelude::*;
use crate::reconcile::{
    created,
    created_name,
    insert_by_name,
    kept_of,
    lemma_insert_contains,
    lemma_sort_contains,
    max_ordinal,
    reconcile_live,
    sort_by_name,
};
use crate::reconcile_laws::{distinct_templates, lemma_kept_within, named_in, only_selected};
use crate::roster::{
    batch,
    batch_name,
    count_of,
    fresh,
    from_template,
    group_of,
    lemma_count_all,
    lemma_count_concat,
    lemma_count_grows,
    name_absent,
    names_unique,
    selection_views,
    spawn_live,
    CombatantView,
};
use crate::template::{Monster, MonsterView};
use crate::text::{
    has_ordinal,
    lemma_decimal_round_trip,
    lemma_numbered_name_unique,
    lemma_ordinal_of_numbered,
    numbered_name,
    ordinal_of,
    MAX_ORDINAL,
};

verus! {

/// Whether a template name is plain: not itself some name followed by a
/// space and a number.
pub open spec fn plain(name: Seq<char>) -> bool {
    forall|p: Seq<char>, k: nat| name != #[trigger] numbered_name(p, k)
}

/// Whether the combatant is called after its template: by the bare template
/// name, or by the template name and an ordinal.
pub open spec fn well_named(c: CombatantView) -> bool {
    c.instance_name == c.monster_template.name || exists|k: nat|
        c.instance_name == #[trigger] numbered_name(c.monster_template.name, k)
}

/// Whether every combatant of `s` is called after its template.
pub open spec fn all_well_named(s: Seq<CombatantView>) -> bool {
    forall|i: int| 0 <= i < s.len() ==> well_named(#[trigger] s[i])
}

/// Whether the template of every combatant of `s` has a plain name.
pub open spec fn templates_plain(s: Seq<CombatantView>) -> bool {
    forall|i: int| 0 <= i < s.len() ==> plain((#[trigger] s[i]).monster_template.name)
}

/// Whether a live sequence is sound: every combatant is called after its
/// template, the templates' names are plain, and no two combatants share a
/// name.
pub open spec fn sound(s: Seq<CombatantView>) -> bool {
    &&& names_unique(s)
    &&& all_well_named(s)
    &&& templates_plain(s)
}

/// Whether every template of a selection has a plain name.
pub open spec fn selection_plain(selections: Seq<(MonsterView, int)>) -> bool {
    forall|j: int| 0 <= j < selections.len() ==> plain((#[trigger] selections[j]).0.name)
}

/// Whether the ordinals that reconciliation of `live` with `desired` hands
/// out stay within `MAX_ORDINAL`.
pub open spec fn ordinals_in_reach(
    live: Seq<CombatantView>,
    desired: Seq<(MonsterView, int)>,
) -> bool {
    forall|j: int|
        0 <= j < desired.len() && (#[trigger] desired[j]).1 > count_of(live, desired[j].0.name)
            ==> max_ordinal(live, desired[j].0.name) + desired[j].1 - count_of(
            live,
            desired[j].0.name,
        ) <= MAX_ORDINAL
}

/// Whether the template name `name` is plain.
pub fn is_plain_name(name: &str) -> (r: bool)
    ensures
        r == plain(name@),
{
    !has_ordinal(name)
}

/// Whether every template of `selections` has a plain name.
pub fn selection_is_plain(selections: &Vec<(Monster, i32)>) -> (r: bool)
    ensures
        r == selection_plain(selection_views(selections@)),
{
    let ghost views = selection_views(selections@);
    let mut i: usize = 0;
    while i < selections.len()
        invariant
            i <= selections.len(),
            views == selection_views(selections@),
            forall|j: int| 0 <= j < i ==> plain((#[trigger] views[j]).0.name),
        decreases selections.len() - i,
    {
        if !is_plain_name(selections[i].0.name.as_str()) {
            assert(!plain(views[i as int].0.name));
            return false;
        }
        i += 1;
    }
    true
}

/// Whether the combatant at place `i` is named by its rank: where `r`
/// combatants of its template stand before it, it has the ordinal `r + 1`,
/// or the bare name if it is the first.
pub open spec fn ranked_at(s: Seq<CombatantView>, i: int) -> bool {
    let c = s[i];
    let r = count_of(s.take(i), c.monster_template.name);
    c.instance_name == numbered_name(c.monster_template.name, r + 1) || (r == 0
        && c.instance_name == c.monster_template.name)
}

/// Whether every combatant of `s` is named by its rank.
pub open spec fn ranked(s: Seq<CombatantView>) -> bool {
    forall|i: int| 0 <= i < s.len() ==> #[trigger] ranked_at(s, i)
}

/// A name with an ordinal is longer than the name.
pub proof fn lemma_numbered_is_longer(name: Seq<char>, k: nat)
    ensures
        numbered_name(name, k).len() > name.len() + 1,
        numbered_name(name, k) != name,
{
    lemma_decimal_round_trip(k);
}

/// Two combatants called after templates of different plain names have
/// different names.
pub proof fn lemma_other_template_other_name(a: CombatantView, b: CombatantView)
    requires
        well_named(a),
        well_named(b),
        plain(a.monster_template.name),
        plain(b.monster_template.name),
        a.monster_template.name != b.monster_template.name,
    ensures
        a.instance_name != b.instance_name,
{
    let an = a.monster_template.name;
    let bn = b.monster_template.name;
    if a.instance_name == b.instance_name {
        if a.instance_name == an {
            if b.instance_name != bn {
                let k = choose|k: nat| b.instance_name == #[trigger] numbered_name(bn, k);
                assert(an == numbered_name(bn, k));
            }
        } else {
            let j = choose|j: nat| a.instance_name == #[trigger] numbered_name(an, j);
            if b.instance_name == bn {
                assert(bn == numbered_name(an, j));
            } else {
                let k = choose|k: nat| b.instance_name == #[trigger] numbered_name(bn, k);
                lemma_numbered_name_unique(an, j, bn, k);
            }
        }
    }
}

/// Combatants named by their ranks, of templates with plain names, have
/// names of their own, each after its template.
pub proof fn lemma_ranked_unique(s: Seq<CombatantView>)
    requires
        ranked(s),
        templates_plain(s),
    ensures
        names_unique(s),
        all_well_named(s),
{
    assert forall|i: int| 0 <= i < s.len() implies well_named(#[trigger] s[i]) by {
        assert(ranked_at(s, i));
    }
    assert forall|i: int, j: int| 0 <= i < j < s.len() implies (#[trigger] s[i]).instance_name != (
    #[trigger] s[j]).instance_name by {
        let a = s[i];
        let b = s[j];
        let name = a.monster_template.name;
        assert(ranked_at(s, i));
        assert(ranked_at(s, j));
        if name != b.monster_template.name {
            lemma_other_template_other_name(a, b);
        } else {
            let ra = count_of(s.take(i), name);
            let rb = count_of(s.take(j), name);
            lemma_count_grows(s, name, i, j);
            lemma_numbered_is_longer(name, (rb + 1) as nat);
            if a.instance_name == b.instance_name {
                if a.instance_name != name {
                    lemma_numbered_name_unique(name, (ra + 1) as nat, name, (rb + 1) as nat);
                }
            }
        }
    }
}

/// What a spawn gives is named by rank, of the templates selected.
pub proof fn lemma_spawn_ranked(selections: Seq<(MonsterView, int)>)
    requires
        forall|j: int| 0 <= j < selections.len() ==> plain((#[trigger] selections[j]).0.name),
    ensures
        ranked(spawn_live(selections)),
        templates_plain(spawn_live(selections)),
    decreases selections.len(),
{
    if selections.len() > 0 {
        let head = selections.drop_last();
        assert forall|j: int| 0 <= j < head.len() implies plain((#[trigger] head[j]).0.name) by {
            assert(head[j] == selections[j]);
        }
        lemma_spawn_ranked(head);
        let prev = spawn_live(head);
        let t = selections.last().0;
        let n = selections.last().1;
        let running = count_of(prev, t.name);
        let added = batch(t, n, running);
        let all = spawn_live(selections);
        assert(all == prev + added);
        assert(plain(selections[selections.len() - 1].0.name));
        assert forall|i: int| 0 <= i < all.len() implies #[trigger] ranked_at(all, i) by {
            if i < prev.len() {
                assert(all.take(i) =~= prev.take(i));
                assert(ranked_at(prev, i));
            } else {
                let k = i - prev.len();
                assert(all[i] == fresh(t, batch_name(t, n, running, k)));
                assert(all.take(i) =~= prev + added.take(k));
                lemma_count_concat(prev, added.take(k), t.name);
                lemma_count_all(added.take(k), t.name);
            }
        }
        assert forall|i: int| 0 <= i < all.len() implies plain(
            (#[trigger] all[i]).monster_template.name,
        ) by {
            if i < prev.len() {
                assert(all[i] == prev[i]);
            } else {
                assert(all[i] == added[i - prev.len()]);
            }
        }
    }
}

/// A spawn from templates with plain names gives a sound live sequence:
/// every combatant has a name of its own, after its template.
pub proof fn lemma_spawn_sound(selections: Seq<(MonsterView, int)>)
    requires
        selection_plain(selections),
    ensures
        sound(spawn_live(selections)),
{
    lemma_spawn_ranked(selections);
    lemma_ranked_unique(spawn_live(selections));
}

/// A sequence with names of their own stays so with one more combatant
/// whose name it does not hold.
pub proof fn lemma_unique_push(s: Seq<CombatantView>, c: CombatantView)
    requires
        names_unique(s),
        name_absent(s, c.instance_name),
    ensures
        names_unique(s.push(c)),
{
}

/// Two sequences with names of their own that share no name have names of
/// their own together.
pub proof fn lemma_unique_concat(a: Seq<CombatantView>, b: Seq<CombatantView>)
    requires
        names_unique(a),
        names_unique(b),
        forall|i: int, j: int|
            0 <= i < a.len() && 0 <= j < b.len() ==> (#[trigger] a[i]).instance_name != (
            #[trigger] b[j]).instance_name,
    ensures
        names_unique(a + b),
{
    let s = a + b;
    assert forall|i: int, j: int| 0 <= i < j < s.len() implies (#[trigger] s[i]).instance_name != (
    #[trigger] s[j]).instance_name by {
        if j < a.len() {
            assert(s[i] == a[i] && s[j] == a[j]);
        } else if i < a.len() {
            assert(s[i] == a[i] && s[j] == b[j - a.len()]);
        } else {
            assert(s[i] == b[i - a.len()] && s[j] == b[j - a.len()]);
        }
    }
}

/// Where no combatant that `s` holds is called `name`, the name is absent.
pub proof fn lemma_absent_by_contains(s: Seq<CombatantView>, name: Seq<char>)
    requires
        forall|x: CombatantView| s.contains(x) ==> x.instance_name != name,
    ensures
        name_absent(s, name),
{
    assert forall|i: int| 0 <= i < s.len() implies (#[trigger] s[i]).instance_name != name by {
        assert(s.contains(s[i]));
    }
}

/// The combatants of one template, taken from a sequence with names of
/// their own, have names of their own.
pub proof fn lemma_group_unique(s: Seq<CombatantView>, name: Seq<char>)
    requires
        names_unique(s),
    ensures
        names_unique(group_of(s, name)),
    decreases s.len(),
{
    let p = from_template(name);
    if s.len() == 0 {
        s.lemma_filter_len(p);
    } else {
        let head = s.drop_last();
        let c = s.last();
        lemma_group_unique(head, name);
        assert(head.push(c) =~= s);
        head.lemma_filter_push(c, p);
        if p(c) {
            assert forall|x: CombatantView| head.filter(p).contains(x) implies x.instance_name
                != c.instance_name by {
                head.lemma_filter_contains_rev(p, x);
                let i = choose|i: int| 0 <= i < head.len() && head[i] == x;
                assert(s[i] == x);
                assert(s[s.len() - 1] == c);
            }
            lemma_absent_by_contains(head.filter(p), c.instance_name);
            lemma_unique_push(head.filter(p), c);
        }
    }
}

/// Inserting by name a combatant whose name is new keeps the names apart.
pub proof fn lemma_insert_unique(sorted: Seq<CombatantView>, c: CombatantView)
    requires
        names_unique(sorted),
        name_absent(sorted, c.instance_name),
    ensures
        names_unique(insert_by_name(sorted, c)),
    decreases sorted.len(),
{
    if sorted.len() > 0 && !crate::text::text_le(sorted.last().instance_name, c.instance_name) {
        let head = sorted.drop_last();
        let inner = insert_by_name(head, c);
        lemma_insert_unique(head, c);
        lemma_insert_contains(head, c);
        assert forall|x: CombatantView| inner.contains(x) implies x.instance_name
            != sorted.last().instance_name by {
            if x != c {
                let i = choose|i: int| 0 <= i < head.len() && head[i] == x;
                assert(sorted[i] == x);
            } else {
                assert(sorted[sorted.len() - 1].instance_name != c.instance_name);
            }
        }
        lemma_absent_by_contains(inner, sorted.last().instance_name);
        lemma_unique_push(inner, sorted.last());
    }
}

/// Sorting by name keeps the names apart.
pub proof fn lemma_sort_unique(s: Seq<CombatantView>)
    requires
        names_unique(s),
    ensures
        names_unique(sort_by_name(s)),
    decreases s.len(),
{
    if s.len() > 0 {
        let head = s.drop_last();
        lemma_sort_unique(head);
        lemma_sort_contains(head);
        assert forall|x: CombatantView| sort_by_name(head).contains(x) implies x.instance_name
            != s.last().instance_name by {
            let i = choose|i: int| 0 <= i < head.len() && head[i] == x;
            assert(s[i] == x);
            assert(s[s.len() - 1] == s.last());
        }
        lemma_absent_by_contains(sort_by_name(head), s.last().instance_name);
        lemma_insert_unique(sort_by_name(head), s.last());
    }
}

/// What is kept of a sequence with names of their own has names of its own.
pub proof fn lemma_kept_unique(live: Seq<CombatantView>, name: Seq<char>, wanted: int)
    requires
        names_unique(live),
    ensures
        names_unique(kept_of(live, name, wanted)),
{
    lemma_group_unique(live, name);
    lemma_sort_unique(group_of(live, name));
    lemma_sort_contains(group_of(live, name));
    let sorted = sort_by_name(group_of(live, name));
    let kept = kept_of(live, name, wanted);
    assert forall|i: int, j: int| 0 <= i < j < kept.len() implies (#[trigger] kept[i]).instance_name
        != (#[trigger] kept[j]).instance_name by {
        assert(kept[i] == sorted[i] && kept[j] == sorted[j]);
    }
}

/// The highest ordinal of a template is at least that of each of its
/// combatants.
pub proof fn lemma_max_ordinal_covers(s: Seq<CombatantView>, name: Seq<char>, i: int)
    requires
        0 <= i < s.len(),
        s[i].monster_template.name == name,
    ensures
        ordinal_of(s[i].instance_name, name) <= max_ordinal(s, name),
    decreases s.len(),
{
    if i < s.len() - 1 {
        lemma_max_ordinal_covers(s.drop_last(), name, i);
    }
}

/// The highest ordinal of a template in a sequence is no more than in a
/// sequence that holds all of the first one's combatants of that template.
pub proof fn lemma_max_ordinal_within(
    s: Seq<CombatantView>,
    live: Seq<CombatantView>,
    name: Seq<char>,
)
    requires
        forall|i: int|
            0 <= i < s.len() && (#[trigger] s[i]).monster_template.name == name ==> live.contains(
                s[i],
            ),
    ensures
        max_ordinal(s, name) <= max_ordinal(live, name),
    decreases s.len(),
{
    if s.len() > 0 {
        let head = s.drop_last();
        assert forall|i: int| 0 <= i < head.len() && (#[trigger] head[i]).monster_template.name
            == name implies live.contains(head[i]) by {
            assert(head[i] == s[i]);
        }
        lemma_max_ordinal_within(head, live, name);
        let c = s.last();
        if c.monster_template.name == name {
            assert(s[s.len() - 1] == c);
            let j = choose|j: int| 0 <= j < live.len() && live[j] == c;
            lemma_max_ordinal_covers(live, name, j);
        }
    }
}

/// A new name with an ordinal above the highest in use is the name of no
/// combatant of that template that is called after it.
pub proof fn lemma_new_name_apart(
    s: Seq<CombatantView>,
    t: MonsterView,
    wanted: int,
    k: int,
    i: int,
)
    requires
        0 <= k,
        0 <= i < s.len(),
        s[i].monster_template.name == t.name,
        well_named(s[i]),
        max_ordinal(s, t.name) + 1 + k <= MAX_ORDINAL,
    ensures
        s[i].instance_name != created_name(t, wanted, max_ordinal(s, t.name), k),
{
    let base = max_ordinal(s, t.name);
    let x = s[i];
    lemma_max_ordinal_covers(s, t.name, i);
    let fresh_name = created_name(t, wanted, base, k);
    if x.instance_name == fresh_name {
        if wanted == 1 && base == 0 {
            assert(x.instance_name == t.name);
            assert(ordinal_of(x.instance_name, t.name) == 1);
        } else {
            let m = (base + 1 + k) as nat;
            lemma_ordinal_of_numbered(t.name, m);
        }
    }
}

/// Reconciliation keeps a live sequence sound: where the live sequence is
/// sound, the desired list names each template once and by a plain name,
/// and the new ordinals stay within `MAX_ORDINAL`, the new live sequence is
/// sound too, and holds combatants of the desired templates only.
pub proof fn lemma_reconcile_sound(live: Seq<CombatantView>, desired: Seq<(MonsterView, int)>)
    requires
        sound(live),
        selection_plain(desired),
        distinct_templates(desired),
        ordinals_in_reach(live, desired),
    ensures
        sound(reconcile_live(live, desired)),
        only_selected(reconcile_live(live, desired), desired),
    decreases desired.len(),
{
    if desired.len() > 0 {
        let head = desired.drop_last();
        assert forall|j: int| 0 <= j < head.len() implies head[j] == desired[j] by {}
        lemma_reconcile_sound(live, head);
        let acc = reconcile_live(live, head);
        let t = desired.last().0;
        let n = desired.last().1;
        let last = desired.len() - 1;
        assert(desired[last] == desired.last());
        let kept = kept_of(live, t.name, n);
        let with_kept = acc + kept;
        let result = reconcile_live(live, desired);
        lemma_kept_within(live, t.name, n);
        lemma_kept_unique(live, t.name, n);
        // what was there before is of other templates
        assert forall|i: int| 0 <= i < acc.len() implies (#[trigger] acc[i]).monster_template.name
            != t.name by {
            assert(named_in(head, acc[i].monster_template.name));
            let j = choose|j: int|
                0 <= j < head.len() && (#[trigger] head[j]).0.name == acc[i].monster_template.name;
            assert(head[j] == desired[j]);
        }
        assert forall|i: int| 0 <= i < kept.len() implies live.contains(#[trigger] kept[i])
            && kept[i].monster_template.name == t.name && well_named(kept[i]) && plain(
            kept[i].monster_template.name,
        ) by {
            assert(kept.contains(kept[i]));
            let j = choose|j: int| 0 <= j < live.len() && live[j] == kept[i];
            assert(well_named(live[j]));
        }
        assert forall|i: int, j: int| 0 <= i < acc.len() && 0 <= j < kept.len() implies (
        #[trigger] acc[i]).instance_name != (#[trigger] kept[j]).instance_name by {
            lemma_other_template_other_name(acc[i], kept[j]);
        }
        lemma_unique_concat(acc, kept);
        assert forall|i: int| 0 <= i < with_kept.len() implies well_named(#[trigger] with_kept[i])
            && plain(with_kept[i].monster_template.name) && named_in(
            desired,
            with_kept[i].monster_template.name,
        ) by {
            if i < acc.len() {
                assert(with_kept[i] == acc[i]);
                assert(named_in(head, acc[i].monster_template.name));
                let j = choose|j: int|
                    0 <= j < head.len() && (#[trigger] head[j]).0.name
                        == acc[i].monster_template.name;
                assert(desired[j] == head[j]);
            } else {
                assert(with_kept[i] == kept[i - acc.len()]);
            }
        }
        if n > count_of(live, t.name) {
            let base = max_ordinal(with_kept, t.name);
            let missing = (n - count_of(live, t.name)) as nat;
            let made = created(t, n, base, missing);
            assert(result == with_kept + made);
            assert forall|i: int| 0 <= i < with_kept.len() && (
            #[trigger] with_kept[i]).monster_template.name == t.name implies live.contains(
                with_kept[i],
            ) by {
                assert(with_kept[i] == kept[i - acc.len()]);
            }
            lemma_max_ordinal_within(with_kept, live, t.name);
            assert(base + missing <= MAX_ORDINAL);
            assert forall|i: int, j: int| 0 <= i < j < made.len() implies (
            #[trigger] made[i]).instance_name != (#[trigger] made[j]).instance_name by {
                if made[i].instance_name == made[j].instance_name {
                    lemma_numbered_name_unique(
                        t.name,
                        (base + 1 + i) as nat,
                        t.name,
                        (base + 1 + j) as nat,
                    );
                }
            }
            assert forall|j: int| 0 <= j < made.len() implies well_named(#[trigger] made[j])
                && plain(made[j].monster_template.name) && made[j].monster_template.name
                == t.name by {
                assert(made[j] == fresh(t, created_name(t, n, base, j)));
            }
            assert forall|i: int, j: int|
                0 <= i < with_kept.len() && 0 <= j < made.len() implies (
            #[trigger] with_kept[i]).instance_name != (#[trigger] made[j]).instance_name by {
                if with_kept[i].monster_template.name == t.name {
                    lemma_new_name_apart(with_kept, t, n, j, i);
                } else {
                    lemma_other_template_other_name(with_kept[i], made[j]);
                }
            }
            lemma_unique_concat(with_kept, made);
            assert forall|i: int| 0 <= i < result.len() implies well_named(#[trigger] result[i])
                && plain(result[i].monster_template.name) && named_in(
                desired,
                result[i].monster_template.name,
            ) by {
                if i < with_kept.len() {
                    assert(result[i] == with_kept[i]);
                } else {
                    assert(result[i] == made[i - with_kept.len()]);
                }
            }
        } else {
            assert(result == with_kept);
        }
    }
}

} // verus!
