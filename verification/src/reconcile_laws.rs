//! What reconciliation keeps and what it reaches: the laws of the new live
//! sequence.

use vstd::prelude::*;
use vstd::seq_lib::to_multiset_build;
use crate::reconcile::{
    created,
    insert_by_name,
    kept_of,
    lemma_insert_contains,
    lemma_sort_contains,
    max_ordinal,
    reconcile_entry,
    reconcile_live,
    sort_by_name,
};
use crate::roster::{
    count_of,
    from_template,
    group_of,
    lemma_count_all,
    lemma_count_concat,
    lemma_count_none,
    CombatantView,
};
use crate::template::MonsterView;
use crate::text::{lemma_text_le_total, lemma_text_le_transitive, text_le};

verus! {

/// Whether no two entries of a selection name the same template.
pub open spec fn distinct_templates(selections: Seq<(MonsterView, int)>) -> bool {
    forall|a: int, b: int|
        0 <= a < b < selections.len() ==> (#[trigger] selections[a]).0.name != (
        #[trigger] selections[b]).0.name
}

/// Whether a selection names the template called `name`.
pub open spec fn named_in(selections: Seq<(MonsterView, int)>, name: Seq<char>) -> bool {
    exists|j: int| 0 <= j < selections.len() && (#[trigger] selections[j]).0.name == name
}

/// Whether every combatant of `s` is of a template that the selection names.
pub open spec fn only_selected(s: Seq<CombatantView>, selections: Seq<(MonsterView, int)>) -> bool {
    forall|i: int| 0 <= i < s.len() ==> named_in(selections, (#[trigger] s[i]).monster_template.name)
}

/// Whether the names of `s` ascend.
pub open spec fn names_ascend(s: Seq<CombatantView>) -> bool {
    forall|i: int, j: int|
        0 <= i < j < s.len() ==> text_le(
            (#[trigger] s[i]).instance_name,
            (#[trigger] s[j]).instance_name,
        )
}

/// Inserting by name into ascending names leaves them ascending.
pub proof fn lemma_insert_ascends(sorted: Seq<CombatantView>, c: CombatantView)
    requires
        names_ascend(sorted),
    ensures
        names_ascend(insert_by_name(sorted, c)),
    decreases sorted.len(),
{
    let r = insert_by_name(sorted, c);
    if sorted.len() == 0 {
    } else if text_le(sorted.last().instance_name, c.instance_name) {
        assert forall|i: int, j: int| 0 <= i < j < r.len() implies text_le(
            (#[trigger] r[i]).instance_name,
            (#[trigger] r[j]).instance_name,
        ) by {
            if j == sorted.len() && i < sorted.len() - 1 {
                assert(text_le(sorted[i].instance_name, sorted[sorted.len() - 1].instance_name));
                lemma_text_le_transitive(
                    sorted[i].instance_name,
                    sorted.last().instance_name,
                    c.instance_name,
                );
            }
        }
    } else {
        let head = sorted.drop_last();
        let inner = insert_by_name(head, c);
        lemma_insert_ascends(head, c);
        lemma_insert_contains(head, c);
        lemma_text_le_total(sorted.last().instance_name, c.instance_name);
        assert forall|i: int, j: int| 0 <= i < j < r.len() implies text_le(
            (#[trigger] r[i]).instance_name,
            (#[trigger] r[j]).instance_name,
        ) by {
            if j < inner.len() {
                assert(r[i] == inner[i] && r[j] == inner[j]);
            } else {
                assert(inner.contains(inner[i]));
                if inner[i] != c {
                    let k = choose|k: int| 0 <= k < head.len() && head[k] == inner[i];
                    assert(sorted[k] == inner[i]);
                    assert(text_le(sorted[k].instance_name, sorted[sorted.len() - 1].instance_name));
                }
            }
        }
    }
}

/// Sorting by name gives ascending names.
pub proof fn lemma_sort_ascends(s: Seq<CombatantView>)
    ensures
        names_ascend(sort_by_name(s)),
    decreases s.len(),
{
    if s.len() > 0 {
        lemma_sort_ascends(s.drop_last());
        lemma_insert_ascends(sort_by_name(s.drop_last()), s.last());
    }
}

/// Inserting by name adds the combatant once and changes nothing else of
/// what the sequence holds.
pub proof fn lemma_insert_permutes(sorted: Seq<CombatantView>, c: CombatantView)
    ensures
        insert_by_name(sorted, c).to_multiset() == sorted.to_multiset().insert(c),
    decreases sorted.len(),
{
    if sorted.len() == 0 {
        assert(insert_by_name(sorted, c) =~= sorted.push(c));
        to_multiset_build(sorted, c);
    } else if text_le(sorted.last().instance_name, c.instance_name) {
        to_multiset_build(sorted, c);
    } else {
        let head = sorted.drop_last();
        let inner = insert_by_name(head, c);
        lemma_insert_permutes(head, c);
        to_multiset_build(inner, sorted.last());
        to_multiset_build(head, sorted.last());
        assert(head.push(sorted.last()) =~= sorted);
        assert(head.to_multiset().insert(c).insert(sorted.last()) =~= head.to_multiset().insert(
            sorted.last(),
        ).insert(c));
    }
}

/// Sorting by name permutes: the sorted sequence holds each combatant as
/// often as the sequence did.
pub proof fn lemma_sort_permutes(s: Seq<CombatantView>)
    ensures
        sort_by_name(s).to_multiset() == s.to_multiset(),
    decreases s.len(),
{
    if s.len() > 0 {
        let head = s.drop_last();
        lemma_sort_permutes(head);
        lemma_insert_permutes(sort_by_name(head), s.last());
        to_multiset_build(head, s.last());
        assert(head.push(s.last()) =~= s);
    }
}

/// Those kept of a template come first by name: no combatant of the
/// template that leaves has a name before that of one that stays.
pub proof fn lemma_kept_come_first(live: Seq<CombatantView>, name: Seq<char>, wanted: int)
    ensures
        names_ascend(kept_of(live, name, wanted)),
        forall|i: int, j: int|
            0 <= i < kept_of(live, name, wanted).len() <= j < count_of(live, name) ==> text_le(
                (#[trigger] kept_of(live, name, wanted)[i]).instance_name,
                (#[trigger] sort_by_name(group_of(live, name))[j]).instance_name,
            ),
{
    let sorted = sort_by_name(group_of(live, name));
    let kept = kept_of(live, name, wanted);
    lemma_sort_ascends(group_of(live, name));
    lemma_sort_contains(group_of(live, name));
    assert forall|i: int, j: int| 0 <= i < j < kept.len() implies text_le(
        (#[trigger] kept[i]).instance_name,
        (#[trigger] kept[j]).instance_name,
    ) by {
        assert(kept[i] == sorted[i] && kept[j] == sorted[j]);
    }
    assert forall|i: int, j: int| 0 <= i < kept.len() <= j < count_of(live, name) implies text_le(
        (#[trigger] kept[i]).instance_name,
        (#[trigger] sorted[j]).instance_name,
    ) by {
        assert(kept[i] == sorted[i]);
    }
}

/// What two sequences hold together is what either holds.
pub proof fn lemma_concat_contains(a: Seq<CombatantView>, b: Seq<CombatantView>)
    ensures
        forall|x: CombatantView| #[trigger] (a + b).contains(x) <==> (a.contains(x) || b.contains(x)),
{
    assert forall|x: CombatantView| #[trigger] (a + b).contains(x) <==> (a.contains(x)
        || b.contains(x)) by {
        if (a + b).contains(x) {
            let i = choose|i: int| 0 <= i < (a + b).len() && (a + b)[i] == x;
            if i < a.len() {
                assert(a[i] == x);
            } else {
                assert(b[i - a.len()] == x);
            }
        }
        if a.contains(x) {
            let i = choose|i: int| 0 <= i < a.len() && a[i] == x;
            assert((a + b)[i] == x);
        }
        if b.contains(x) {
            let i = choose|i: int| 0 <= i < b.len() && b[i] == x;
            assert((a + b)[a.len() + i] == x);
        }
    }
}

/// Every combatant kept for a template is a live combatant of that template.
pub proof fn lemma_kept_within(live: Seq<CombatantView>, name: Seq<char>, wanted: int)
    ensures
        forall|x: CombatantView| #[trigger]
            kept_of(live, name, wanted).contains(x) ==> live.contains(x)
                && x.monster_template.name == name,
{
    let group = group_of(live, name);
    let sorted = sort_by_name(group);
    let kept = kept_of(live, name, wanted);
    lemma_sort_contains(group);
    assert forall|x: CombatantView| #[trigger] kept.contains(x) implies live.contains(x)
        && x.monster_template.name == name by {
        let i = choose|i: int| 0 <= i < kept.len() && kept[i] == x;
        assert(sorted[i] == x);
        assert(sorted.contains(x));
        assert(group.contains(x));
        live.lemma_filter_contains_rev(from_template(name), x);
        let j = choose|j: int| 0 <= j < group.len() && group[j] == x;
        live.lemma_filter_pred(from_template(name), j);
    }
}

/// Where at least as many of a template are wanted as exist, each of its
/// live combatants is kept.
pub proof fn lemma_kept_all(live: Seq<CombatantView>, name: Seq<char>, wanted: int, i: int)
    requires
        0 <= i < live.len(),
        live[i].monster_template.name == name,
        wanted >= count_of(live, name),
    ensures
        kept_of(live, name, wanted).contains(live[i]),
{
    let group = group_of(live, name);
    live.lemma_filter_contains(from_template(name), i);
    lemma_sort_contains(group);
    assert(sort_by_name(group).take(group.len() as int) =~= sort_by_name(group));
}

/// What is kept for an entry of the desired list is in the new live sequence.
pub proof fn lemma_reconcile_holds_kept(
    live: Seq<CombatantView>,
    desired: Seq<(MonsterView, int)>,
    j: int,
    x: CombatantView,
)
    requires
        0 <= j < desired.len(),
        kept_of(live, desired[j].0.name, desired[j].1).contains(x),
    ensures
        reconcile_live(live, desired).contains(x),
    decreases desired.len(),
{
    let acc = reconcile_live(live, desired.drop_last());
    let t = desired.last().0;
    let n = desired.last().1;
    let kept = kept_of(live, t.name, n);
    if j < desired.len() - 1 {
        lemma_reconcile_holds_kept(live, desired.drop_last(), j, x);
    }
    lemma_concat_contains(acc, kept);
    if n > count_of(live, t.name) {
        lemma_concat_contains(
            acc + kept,
            created(t, n, max_ordinal(acc + kept, t.name), (n - count_of(live, t.name)) as nat),
        );
    }
}

/// Reconciliation preserves state: where the desired list asks for at
/// least as many of a template as are live, every live combatant of that
/// template is in the new live sequence, unchanged.
pub proof fn lemma_reconcile_preserves(
    live: Seq<CombatantView>,
    desired: Seq<(MonsterView, int)>,
    j: int,
    i: int,
)
    requires
        0 <= j < desired.len(),
        0 <= i < live.len(),
        live[i].monster_template.name == desired[j].0.name,
        desired[j].1 >= count_of(live, desired[j].0.name),
    ensures
        reconcile_live(live, desired).contains(live[i]),
{
    lemma_kept_all(live, desired[j].0.name, desired[j].1, i);
    lemma_reconcile_holds_kept(live, desired, j, live[i]);
}

/// Whether `result` keeps the state of `live` under `desired`: every live
/// combatant of a template of which `desired` asks for at least as many as
/// are live is in `result`, unchanged.
pub open spec fn state_preserved(
    live: Seq<CombatantView>,
    desired: Seq<(MonsterView, int)>,
    result: Seq<CombatantView>,
) -> bool {
    forall|i: int, j: int|
        0 <= i < live.len() && 0 <= j < desired.len() && (
        #[trigger] live[i]).monster_template.name == (#[trigger] desired[j]).0.name && desired[j].1
            >= count_of(live, desired[j].0.name) ==> result.contains(live[i])
}

/// Whether `desired` matches the composition of `live`: it names the
/// template of every live combatant and asks of each template for as many
/// as are live.
pub open spec fn composition_matches(
    live: Seq<CombatantView>,
    desired: Seq<(MonsterView, int)>,
) -> bool {
    &&& only_selected(live, desired)
    &&& forall|j: int|
        0 <= j < desired.len() ==> count_of(live, (#[trigger] desired[j]).0.name) == if desired[j].1
            > 0 {
            desired[j].1
        } else {
            0
        }
}

/// Reconciliation preserves state, for every live combatant and every
/// entry of the desired list.
pub proof fn lemma_reconcile_state_preserved(
    live: Seq<CombatantView>,
    desired: Seq<(MonsterView, int)>,
)
    ensures
        state_preserved(live, desired, reconcile_live(live, desired)),
{
    assert forall|i: int, j: int|
        0 <= i < live.len() && 0 <= j < desired.len() && (
        #[trigger] live[i]).monster_template.name == (#[trigger] desired[j]).0.name && desired[j].1
            >= count_of(live, desired[j].0.name) implies reconcile_live(live, desired).contains(
        live[i],
    ) by {
        lemma_reconcile_preserves(live, desired, j, i);
    }
}

/// Where no entry of the desired list asks for more than are live,
/// reconciliation creates nobody: the new live sequence holds live
/// combatants only.
pub proof fn lemma_reconcile_within(live: Seq<CombatantView>, desired: Seq<(MonsterView, int)>)
    requires
        forall|j: int|
            0 <= j < desired.len() ==> (#[trigger] desired[j]).1 <= count_of(
                live,
                desired[j].0.name,
            ),
    ensures
        forall|x: CombatantView| #[trigger]
            reconcile_live(live, desired).contains(x) ==> live.contains(x),
    decreases desired.len(),
{
    if desired.len() > 0 {
        let acc = reconcile_live(live, desired.drop_last());
        let t = desired.last().0;
        let n = desired.last().1;
        assert forall|j: int| 0 <= j < desired.drop_last().len() implies (
        #[trigger] desired.drop_last()[j]).1 <= count_of(live, desired.drop_last()[j].0.name) by {
            assert(desired.drop_last()[j] == desired[j]);
        }
        lemma_reconcile_within(live, desired.drop_last());
        lemma_kept_within(live, t.name, n);
        lemma_concat_contains(acc, kept_of(live, t.name, n));
        assert(desired[desired.len() - 1].1 <= count_of(live, t.name));
    }
}

/// Reconciliation is idempotent: where the desired list names the template
/// of every live combatant and asks of each template for as many as are
/// live, the new live sequence holds the same combatants as the old one.
pub proof fn lemma_reconcile_idempotent(
    live: Seq<CombatantView>,
    desired: Seq<(MonsterView, int)>,
)
    requires
        composition_matches(live, desired),
    ensures
        reconcile_live(live, desired).to_set() == live.to_set(),
{
    let result = reconcile_live(live, desired);
    lemma_reconcile_within(live, desired);
    assert forall|x: CombatantView| live.contains(x) implies result.contains(x) by {
        let i = choose|i: int| 0 <= i < live.len() && live[i] == x;
        assert(named_in(desired, live[i].monster_template.name));
        let j = choose|j: int|
            0 <= j < desired.len() && (#[trigger] desired[j]).0.name
                == live[i].monster_template.name;
        live.lemma_filter_contains(from_template(desired[j].0.name), i);
        lemma_reconcile_preserves(live, desired, j, i);
    }
    assert(result.to_set() =~= live.to_set());
}

/// How many combatants of the template called `name` the desired list asks
/// for: the sum over its entries of that name; an entry that asks for less
/// than none asks for none.
pub open spec fn wanted_of(desired: Seq<(MonsterView, int)>, name: Seq<char>) -> int
    decreases desired.len(),
{
    if desired.len() == 0 {
        0
    } else {
        wanted_of(desired.drop_last(), name) + if desired.last().0.name == name
            && desired.last().1 > 0 {
            desired.last().1
        } else {
            0
        }
    }
}

/// How many combatants the desired list asks for in all.
pub open spec fn wanted_in_all(desired: Seq<(MonsterView, int)>) -> int
    decreases desired.len(),
{
    if desired.len() == 0 {
        0
    } else {
        wanted_in_all(desired.drop_last()) + if desired.last().1 > 0 {
            desired.last().1
        } else {
            0
        }
    }
}

/// One entry of the desired list adds to the new live sequence as many
/// combatants as it asks for, all of its template.
pub proof fn lemma_entry_adds(
    acc: Seq<CombatantView>,
    live: Seq<CombatantView>,
    t: MonsterView,
    wanted: int,
)
    ensures
        reconcile_entry(acc, live, t, wanted).len() == acc.len() + if wanted > 0 {
            wanted
        } else {
            0
        },
        forall|i: int|
            0 <= i < acc.len() ==> #[trigger] reconcile_entry(acc, live, t, wanted)[i] == acc[i],
        forall|i: int|
            acc.len() <= i < reconcile_entry(acc, live, t, wanted).len() ==> (
            #[trigger] reconcile_entry(acc, live, t, wanted)[i]).monster_template.name == t.name,
{
    let kept = kept_of(live, t.name, wanted);
    let result = reconcile_entry(acc, live, t, wanted);
    lemma_sort_contains(group_of(live, t.name));
    lemma_kept_within(live, t.name, wanted);
    assert forall|i: int| acc.len() <= i < result.len() implies (
    #[trigger] result[i]).monster_template.name == t.name by {
        if i < acc.len() + kept.len() {
            assert(result[i] == kept[i - acc.len()]);
            assert(kept.contains(kept[i - acc.len()]));
        }
    }
}

/// The new live sequence holds of each template as many combatants as the
/// desired list asks for, and as many in all.
pub proof fn lemma_reconcile_counts(
    live: Seq<CombatantView>,
    desired: Seq<(MonsterView, int)>,
    name: Seq<char>,
)
    ensures
        count_of(reconcile_live(live, desired), name) == wanted_of(desired, name),
        reconcile_live(live, desired).len() == wanted_in_all(desired),
    decreases desired.len(),
{
    if desired.len() == 0 {
        reconcile_live(live, desired).lemma_filter_len(from_template(name));
    } else {
        let acc = reconcile_live(live, desired.drop_last());
        let t = desired.last().0;
        let n = desired.last().1;
        let result = reconcile_live(live, desired);
        lemma_reconcile_counts(live, desired.drop_last(), name);
        lemma_entry_adds(acc, live, t, n);
        let added = result.skip(acc.len() as int);
        assert(result =~= acc + added);
        lemma_count_concat(acc, added, name);
        if t.name == name {
            lemma_count_all(added, name);
        } else {
            lemma_count_none(added, name);
        }
    }
}

/// Where the desired list names each template once, it asks of the
/// template of an entry for what that entry asks.
pub proof fn lemma_wanted_of_entry(desired: Seq<(MonsterView, int)>, j: int)
    requires
        0 <= j < desired.len(),
        distinct_templates(desired),
    ensures
        wanted_of(desired, desired[j].0.name) == if desired[j].1 > 0 {
            desired[j].1
        } else {
            0
        },
    decreases desired.len(),
{
    let head = desired.drop_last();
    let name = desired[j].0.name;
    if j < desired.len() - 1 {
        assert forall|a: int, b: int| 0 <= a < b < head.len() implies (#[trigger] head[a]).0.name != (
        #[trigger] head[b]).0.name by {
            assert(head[a] == desired[a] && head[b] == desired[b]);
        }
        assert(head[j] == desired[j]);
        lemma_wanted_of_entry(head, j);
        assert(desired[desired.len() - 1].0.name != desired[j].0.name);
    } else {
        assert forall|a: int| 0 <= a < head.len() implies (#[trigger] head[a]).0.name != name by {
            assert(head[a] == desired[a]);
        }
        lemma_wanted_of_absent(head, name);
    }
}

/// The desired list asks for none of a template that it does not name.
pub proof fn lemma_wanted_of_absent(desired: Seq<(MonsterView, int)>, name: Seq<char>)
    requires
        forall|a: int| 0 <= a < desired.len() ==> (#[trigger] desired[a]).0.name != name,
    ensures
        wanted_of(desired, name) == 0,
    decreases desired.len(),
{
    if desired.len() > 0 {
        let head = desired.drop_last();
        assert forall|a: int| 0 <= a < head.len() implies (#[trigger] head[a]).0.name != name by {
            assert(head[a] == desired[a]);
        }
        lemma_wanted_of_absent(head, name);
        assert(desired[desired.len() - 1].0.name != name);
    }
}

/// Reconciliation reaches the desired composition: where the desired list
/// names each template once, the new live sequence holds of each entry's
/// template as many combatants as the entry asks for, and none of a
/// template that the list does not name.
pub proof fn lemma_reconcile_composition(
    live: Seq<CombatantView>,
    desired: Seq<(MonsterView, int)>,
)
    requires
        distinct_templates(desired),
    ensures
        forall|j: int|
            0 <= j < desired.len() ==> count_of(
                reconcile_live(live, desired),
                (#[trigger] desired[j]).0.name,
            ) == if desired[j].1 > 0 {
                desired[j].1
            } else {
                0
            },
        forall|name: Seq<char>|
            (forall|a: int| 0 <= a < desired.len() ==> (#[trigger] desired[a]).0.name != name)
                ==> #[trigger] count_of(reconcile_live(live, desired), name) == 0,
{
    assert forall|j: int| 0 <= j < desired.len() implies count_of(
        reconcile_live(live, desired),
        (#[trigger] desired[j]).0.name,
    ) == if desired[j].1 > 0 {
        desired[j].1
    } else {
        0
    } by {
        lemma_reconcile_counts(live, desired, desired[j].0.name);
        lemma_wanted_of_entry(desired, j);
    }
    assert forall|name: Seq<char>|
        (forall|a: int| 0 <= a < desired.len() ==> (#[trigger] desired[a]).0.name != name)
        implies #[trigger] count_of(reconcile_live(live, desired), name) == 0 by {
        lemma_reconcile_counts(live, desired, name);
        lemma_wanted_of_absent(desired, name);
    }
}


/// The new live sequence holds combatants of the desired templates only.
pub proof fn lemma_reconcile_only_selected(
    live: Seq<CombatantView>,
    desired: Seq<(MonsterView, int)>,
)
    ensures
        only_selected(reconcile_live(live, desired), desired),
    decreases desired.len(),
{
    if desired.len() > 0 {
        let head = desired.drop_last();
        let acc = reconcile_live(live, head);
        let t = desired.last().0;
        let result = reconcile_live(live, desired);
        lemma_reconcile_only_selected(live, head);
        lemma_entry_adds(acc, live, t, desired.last().1);
        assert(desired[desired.len() - 1].0.name == t.name);
        assert forall|i: int| 0 <= i < result.len() implies named_in(
            desired,
            (#[trigger] result[i]).monster_template.name,
        ) by {
            if i < acc.len() {
                assert(result[i] == acc[i]);
                assert(named_in(head, acc[i].monster_template.name));
                let j = choose|j: int|
                    0 <= j < head.len() && (#[trigger] head[j]).0.name
                        == acc[i].monster_template.name;
                assert(desired[j] == head[j]);
            }
        }
    }
}

/// Reconciling twice with one desired list that names each template once
/// gives what reconciling once gives: the same combatants.
pub proof fn lemma_reconcile_twice(live: Seq<CombatantView>, desired: Seq<(MonsterView, int)>)
    requires
        distinct_templates(desired),
    ensures
        reconcile_live(reconcile_live(live, desired), desired).to_set() == reconcile_live(
            live,
            desired,
        ).to_set(),
{
    let once = reconcile_live(live, desired);
    lemma_reconcile_composition(live, desired);
    lemma_reconcile_only_selected(live, desired);
    lemma_reconcile_idempotent(once, desired);
}

} // verus!
