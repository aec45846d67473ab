//! Reconciliation: bringing a running roster to a new composition while
//! keeping what is already there.

use vstd::prelude::*;
use crate::template::{Monster, MonsterView};
use crate::text::{
    make_numbered_name,
    name_le,
    numbered_name,
    ordinal_of,
    read_ordinal,
    text_le,
    MAX_ORDINAL,
};
use crate::identity::{
    lemma_reconcile_sound,
    ordinals_in_reach,
    selection_plain,
    sound,
};
use crate::reconcile_laws::{
    composition_matches,
    distinct_templates,
    lemma_reconcile_idempotent,
    lemma_reconcile_state_preserved,
    state_preserved,
};
use crate::roster::{
    combatant_views,
    count_of,
    fresh,
    from_template,
    group_of,
    selection_views,
    Combatant,
    CombatantView,
    Roster,
    RosterView,
};

verus! {

/// `sorted` with `c` put behind the last combatant whose name is not after
/// the name of `c`.
pub open spec fn insert_by_name(sorted: Seq<CombatantView>, c: CombatantView) -> Seq<
    CombatantView,
>
    decreases sorted.len(),
{
    if sorted.len() == 0 {
        seq![c]
    } else if text_le(sorted.last().instance_name, c.instance_name) {
        sorted.push(c)
    } else {
        insert_by_name(sorted.drop_last(), c).push(sorted.last())
    }
}

/// The combatants of `s` in ascending order of their instance names; those
/// of one name stay in the order they had.
pub open spec fn sort_by_name(s: Seq<CombatantView>) -> Seq<CombatantView>
    decreases s.len(),
{
    if s.len() == 0 {
        s
    } else {
        insert_by_name(sort_by_name(s.drop_last()), s.last())
    }
}

/// The highest ordinal that a combatant of `s` spawned from the template
/// called `name` holds; 0 where there is none.
pub open spec fn max_ordinal(s: Seq<CombatantView>, name: Seq<char>) -> nat
    decreases s.len(),
{
    if s.len() == 0 {
        0
    } else {
        let rest = max_ordinal(s.drop_last(), name);
        let c = s.last();
        if c.monster_template.name == name && ordinal_of(c.instance_name, name) > rest {
            ordinal_of(c.instance_name, name)
        } else {
            rest
        }
    }
}

/// How many of `existing` combatants stay when `wanted` are asked for.
pub open spec fn kept_count(wanted: int, existing: nat) -> int {
    if wanted <= 0 {
        0
    } else if wanted < existing {
        wanted
    } else {
        existing as int
    }
}

/// The combatants of `live` from the template called `name` that stay when
/// `wanted` are asked for: the first ones in the order of their names.
pub open spec fn kept_of(live: Seq<CombatantView>, name: Seq<char>, wanted: int) -> Seq<
    CombatantView,
> {
    sort_by_name(group_of(live, name)).take(kept_count(wanted, count_of(live, name)))
}

/// The name of the new combatant at place `k` among those created for `t`,
/// where `wanted` are asked for and `base` is the highest ordinal in use:
/// the bare template name for the only instance of a template with no
/// ordinal in use, and the numbered name that continues from `base`
/// otherwise.
pub open spec fn created_name(t: MonsterView, wanted: int, base: nat, k: int) -> Seq<char> {
    if wanted == 1 && base == 0 {
        t.name
    } else {
        numbered_name(t.name, (base + 1 + k) as nat)
    }
}

/// The `missing` new combatants created for `t`.
pub open spec fn created(t: MonsterView, wanted: int, base: nat, missing: nat) -> Seq<
    CombatantView,
> {
    Seq::new(missing, |k: int| fresh(t, created_name(t, wanted, base, k)))
}

/// The new live sequence `acc` after one entry of the desired list: the
/// combatants kept for `t`, then the new ones where more are asked for than
/// exist, numbered from the highest ordinal among what the sequence holds
/// for that template.
pub open spec fn reconcile_entry(
    acc: Seq<CombatantView>,
    live: Seq<CombatantView>,
    t: MonsterView,
    wanted: int,
) -> Seq<CombatantView> {
    let with_kept = acc + kept_of(live, t.name, wanted);
    if wanted > count_of(live, t.name) {
        with_kept + created(
            t,
            wanted,
            max_ordinal(with_kept, t.name),
            (wanted - count_of(live, t.name)) as nat,
        )
    } else {
        with_kept
    }
}

/// The live sequence that reconciliation of `live` with `desired` gives:
/// the entries' combatants, in the order of the desired list.
pub open spec fn reconcile_live(
    live: Seq<CombatantView>,
    desired: Seq<(MonsterView, int)>,
) -> Seq<CombatantView>
    decreases desired.len(),
{
    if desired.len() == 0 {
        Seq::empty()
    } else {
        reconcile_entry(
            reconcile_live(live, desired.drop_last()),
            live,
            desired.last().0,
            desired.last().1,
        )
    }
}

/// The roster `before` after reconciliation with `desired`: the new live
/// sequence, and the killed as they were.
pub open spec fn reconciled(before: RosterView, desired: Seq<(MonsterView, int)>) -> RosterView {
    RosterView { live: reconcile_live(before.live, desired), killed: before.killed }
}

/// Inserting by name puts the combatant at the place `p` behind which every
/// name is after its own and before which the nearest name is not.
pub proof fn lemma_insert_place(sorted: Seq<CombatantView>, c: CombatantView, p: int)
    requires
        0 <= p <= sorted.len(),
        p > 0 ==> text_le(sorted[p - 1].instance_name, c.instance_name),
        forall|q: int|
            p <= q < sorted.len() ==> !text_le((#[trigger] sorted[q]).instance_name, c.instance_name),
    ensures
        insert_by_name(sorted, c) == sorted.insert(p, c),
    decreases sorted.len(),
{
    if sorted.len() == 0 {
        assert(sorted.insert(p, c) =~= seq![c]);
    } else if p == sorted.len() {
        assert(sorted.insert(p, c) =~= sorted.push(c));
    } else {
        assert(!text_le(sorted[sorted.len() - 1].instance_name, c.instance_name));
        lemma_insert_place(sorted.drop_last(), c, p);
        assert(sorted.insert(p, c) =~= sorted.drop_last().insert(p, c).push(sorted.last()));
    }
}

/// Inserting by name adds the combatant and keeps the others.
pub proof fn lemma_insert_contains(sorted: Seq<CombatantView>, c: CombatantView)
    ensures
        insert_by_name(sorted, c).len() == sorted.len() + 1,
        forall|x: CombatantView|
            #[trigger] insert_by_name(sorted, c).contains(x) <==> (x == c || sorted.contains(x)),
    decreases sorted.len(),
{
    let r = insert_by_name(sorted, c);
    if sorted.len() == 0 {
        assert(r[0] == c);
    } else if text_le(sorted.last().instance_name, c.instance_name) {
        assert(r[sorted.len() as int] == c);
        assert forall|x: CombatantView| r.contains(x) <==> (x == c || sorted.contains(x)) by {
            if sorted.contains(x) {
                let i = choose|i: int| 0 <= i < sorted.len() && sorted[i] == x;
                assert(r[i] == x);
            }
        }
    } else {
        let head = sorted.drop_last();
        let inner = insert_by_name(head, c);
        lemma_insert_contains(head, c);
        assert forall|x: CombatantView| r.contains(x) <==> (x == c || sorted.contains(x)) by {
            if r.contains(x) {
                let i = choose|i: int| 0 <= i < r.len() && r[i] == x;
                if i < inner.len() {
                    assert(inner.contains(x));
                    if x != c {
                        let j = choose|j: int| 0 <= j < head.len() && head[j] == x;
                        assert(sorted[j] == x);
                    }
                } else {
                    assert(sorted[sorted.len() - 1] == x);
                }
            }
            if x == c {
                assert(inner.contains(c));
                let i = choose|i: int| 0 <= i < inner.len() && inner[i] == c;
                assert(r[i] == c);
            }
            if sorted.contains(x) {
                let j = choose|j: int| 0 <= j < sorted.len() && sorted[j] == x;
                if j < head.len() {
                    assert(head[j] == x);
                    assert(inner.contains(x));
                    let i = choose|i: int| 0 <= i < inner.len() && inner[i] == x;
                    assert(r[i] == x);
                } else {
                    assert(r[r.len() - 1] == x);
                }
            }
        }
    }
}

/// Sorting by name keeps the combatants: as many as before, and the same.
pub proof fn lemma_sort_contains(s: Seq<CombatantView>)
    ensures
        sort_by_name(s).len() == s.len(),
        forall|x: CombatantView| #[trigger] sort_by_name(s).contains(x) <==> s.contains(x),
    decreases s.len(),
{
    if s.len() > 0 {
        let head = s.drop_last();
        lemma_sort_contains(head);
        lemma_insert_contains(sort_by_name(head), s.last());
        assert forall|x: CombatantView| sort_by_name(s).contains(x) <==> s.contains(x) by {
            if s.contains(x) {
                let j = choose|j: int| 0 <= j < s.len() && s[j] == x;
                if j < head.len() {
                    assert(head[j] == x);
                }
            }
            if head.contains(x) {
                let j = choose|j: int| 0 <= j < head.len() && head[j] == x;
                assert(s[j] == x);
            }
            if x == s.last() {
                assert(s[s.len() - 1] == x);
            }
        }
    }
}

/// The live combatants spawned from the template called `name`, in
/// ascending order of their instance names.
pub fn sorted_group(live: &Vec<Combatant>, name: &String) -> (r: Vec<Combatant>)
    ensures
        combatant_views(r@) == sort_by_name(group_of(combatant_views(live@), name@)),
        r@.len() == count_of(combatant_views(live@), name@),
{
    let ghost views = combatant_views(live@);
    let ghost same = from_template(name@);
    let mut group: Vec<Combatant> = Vec::new();
    let mut i: usize = 0;
    proof {
        assert(views.take(0) =~= Seq::<CombatantView>::empty());
        views.take(0).lemma_filter_len(same);
    }
    while i < live.len()
        invariant
            i <= live.len(),
            views == combatant_views(live@),
            same == from_template(name@),
            combatant_views(group@) == sort_by_name(views.take(i as int).filter(same)),
        decreases live.len() - i,
    {
        proof {
            assert(views.take(i + 1) =~= views.take(i as int).push(views[i as int]));
            views.take(i as int).lemma_filter_push(views[i as int], same);
        }
        if live[i].monster_template.name == *name {
            let c = live[i].clone();
            let ghost sorted = combatant_views(group@);
            let mut p: usize = group.len();
            let mut placed = false;
            while p > 0 && !placed
                invariant
                    p <= group.len(),
                    sorted == combatant_views(group@),
                    placed ==> p > 0 && text_le(sorted[p - 1].instance_name, c@.instance_name),
                    forall|q: int|
                        p <= q < sorted.len() ==> !text_le(
                            (#[trigger] sorted[q]).instance_name,
                            c@.instance_name,
                        ),
                decreases p + (if placed { 0int } else { 1int }),
            {
                if name_le(group[p - 1].instance_name.as_str(), c.instance_name.as_str()) {
                    placed = true;
                } else {
                    p -= 1;
                }
            }
            proof {
                let members = views.take(i as int).filter(same);
                lemma_insert_place(sorted, c@, p as int);
                assert(members.push(c@).drop_last() =~= members);
            }
            group.insert(p, c);
            assert(combatant_views(group@) =~= sorted.insert(p as int, c@));
        }
        i += 1;
    }
    proof {
        assert(views.take(i as int) =~= views);
        lemma_sort_contains(group_of(views, name@));
    }
    group
}

/// The highest ordinal that a combatant of `list` spawned from the template
/// called `name` holds.
pub fn highest_ordinal(list: &Vec<Combatant>, name: &String) -> (r: u64)
    ensures
        r as nat == max_ordinal(combatant_views(list@), name@),
        r <= MAX_ORDINAL,
{
    let ghost views = combatant_views(list@);
    let mut best: u64 = 0;
    let mut i: usize = 0;
    assert(views.take(0) =~= Seq::<CombatantView>::empty());
    while i < list.len()
        invariant
            i <= list.len(),
            views == combatant_views(list@),
            best as nat == max_ordinal(views.take(i as int), name@),
            best <= MAX_ORDINAL,
        decreases list.len() - i,
    {
        assert(views.take(i + 1).drop_last() =~= views.take(i as int));
        if list[i].monster_template.name == *name {
            let k = read_ordinal(list[i].instance_name.as_str(), name.as_str());
            if k > best {
                best = k;
            }
        }
        i += 1;
    }
    assert(views.take(i as int) =~= views);
    best
}

impl Roster {
    /// Brings the live sequence to the composition `desired`, entry by entry
    /// and in its order: of each template the existing combatants stay, first
    /// by name, as far as they are wanted; where more are wanted than exist,
    /// new ones follow at full health, numbered from the highest ordinal in
    /// use. Combatants of a template that `desired` does not name leave. The
    /// killed stay as they are.
    ///
    /// The state of the live combatants is preserved, and where `desired`
    /// matches the composition of the live sequence, the same combatants are
    /// live afterwards. A sound live sequence stays sound where `desired`
    /// names each template once and by a plain name, and the new ordinals
    /// stay within `MAX_ORDINAL`.
    pub fn reconcile(&mut self, desired: &Vec<(Monster, i32)>)
        ensures
            final(self)@ == reconciled(old(self)@, selection_views(desired@)),
            state_preserved(old(self)@.live, selection_views(desired@), final(self)@.live),
            composition_matches(old(self)@.live, selection_views(desired@))
                ==> final(self)@.live.to_set() == old(self)@.live.to_set(),
            sound(old(self)@.live) && selection_plain(selection_views(desired@))
                && distinct_templates(selection_views(desired@)) && ordinals_in_reach(
                old(self)@.live,
                selection_views(desired@),
            ) ==> sound(final(self)@.live),
    {
        let ghost live = self@.live;
        let ghost wanted = selection_views(desired@);
        let mut out: Vec<Combatant> = Vec::new();
        let mut i: usize = 0;
        assert(wanted.take(0) =~= Seq::<(MonsterView, int)>::empty());
        while i < desired.len()
            invariant
                i <= desired.len(),
                *self == *old(self),
                live == self@.live,
                wanted == selection_views(desired@),
                combatant_views(out@) == reconcile_live(live, wanted.take(i as int)),
            decreases desired.len() - i,
        {
            let template = &desired[i].0;
            let n = desired[i].1;
            let ghost t = template@;
            let ghost acc = combatant_views(out@);
            proof {
                assert(wanted[i as int] == (t, n as int));
                assert(wanted.take(i + 1).drop_last() =~= wanted.take(i as int));
                assert(wanted.take(i + 1).last() == wanted[i as int]);
            }
            let mut group = sorted_group(&self.live, &template.name);
            let existing = group.len();
            let keep: usize = if n <= 0 {
                0
            } else if (n as usize) < existing {
                n as usize
            } else {
                existing
            };
            let ghost whole = combatant_views(group@);
            group.truncate(keep);
            assert(combatant_views(group@) =~= whole.take(keep as int));
            let ghost before = out@;
            let ghost part = group@;
            out.append(&mut group);
            assert(combatant_views(out@) =~= acc + kept_of(live, t.name, n as int)) by {
                assert(out@ == before + part);
            }
            let ghost with_kept = combatant_views(out@);
            if n > 0 && (n as usize) > existing {
                let base = highest_ordinal(&out, &template.name);
                let missing: usize = n as usize - existing;
                let ghost made = created(t, n as int, base as nat, missing as nat);
                let mut k: usize = 0;
                assert(with_kept + made.take(0) =~= with_kept);
                while k < missing
                    invariant
                        k <= missing,
                        t == template@,
                        base <= MAX_ORDINAL,
                        made == created(t, n as int, base as nat, missing as nat),
                        combatant_views(out@) == with_kept + made.take(k as int),
                    decreases missing - k,
                {
                    let name = if n == 1 && base == 0 {
                        template.name.clone()
                    } else {
                        make_numbered_name(&template.name, (base as u128) + 1 + (k as u128))
                    };
                    let c = Combatant {
                        instance_name: name,
                        monster_template: template.clone(),
                        current_hp: template.hp,
                        max_hp: template.hp,
                    };
                    assert(c@ == made[k as int]);
                    let ghost held = out@;
                    out.push(c);
                    assert(combatant_views(out@) =~= combatant_views(held).push(c@));
                    assert(made.take(k + 1) =~= made.take(k as int).push(made[k as int]));
                    k += 1;
                }
                assert(made.take(k as int) =~= made);
            }
            i += 1;
        }
        proof {
            assert(wanted.take(i as int) =~= wanted);
            lemma_reconcile_state_preserved(live, wanted);
            if composition_matches(live, wanted) {
                lemma_reconcile_idempotent(live, wanted);
            }
            if sound(live) && selection_plain(wanted) && distinct_templates(wanted)
                && ordinals_in_reach(live, wanted) {
                lemma_reconcile_sound(live, wanted);
            }
        }
        self.live = out;
    }
}

} // verus!
