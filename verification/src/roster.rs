//! The roster of an encounter: the live combatants, in order, and those
//! that were killed.

use vstd::prelude::*;
use vstd::seq_lib::{lemma_multiset_commutative, to_multiset_build, to_multiset_remove};
use crate::template::{Monster, MonsterView};
use crate::identity::{lemma_spawn_sound, selection_plain, sound};
use crate::text::{make_numbered_name, numbered_name};

verus! {

/// One spawned instance of a monster template.
#[derive(Debug, PartialEq, Eq)]
pub struct Combatant {
    pub instance_name: String,
    /// The template as it was when the combatant was spawned.
    pub monster_template: Monster,
    pub current_hp: i32,
    pub max_hp: i32,
}

/// What a [`Combatant`] holds, as mathematical values.
pub struct CombatantView {
    pub instance_name: Seq<char>,
    pub monster_template: MonsterView,
    pub current_hp: int,
    pub max_hp: int,
}

impl View for Combatant {
    type V = CombatantView;

    open spec fn view(&self) -> CombatantView {
        CombatantView {
            instance_name: self.instance_name@,
            monster_template: self.monster_template@,
            current_hp: self.current_hp as int,
            max_hp: self.max_hp as int,
        }
    }
}

impl Clone for Combatant {
    fn clone(&self) -> (r: Self)
        ensures
            r@ == self@,
    {
        Combatant {
            instance_name: self.instance_name.clone(),
            monster_template: self.monster_template.clone(),
            current_hp: self.current_hp,
            max_hp: self.max_hp,
        }
    }
}

/// The views of a sequence of combatants, in order.
pub open spec fn combatant_views(s: Seq<Combatant>) -> Seq<CombatantView> {
    s.map_values(|c: Combatant| c@)
}

/// The combatants of an encounter.
#[derive(Debug, PartialEq, Eq)]
pub struct Roster {
    /// The combatants still fighting, in order.
    pub live: Vec<Combatant>,
    /// The combatants that were killed, in the order of their deaths.
    pub killed: Vec<Combatant>,
}

/// A snapshot of a roster that can be stored and resumed from.
#[derive(Debug, PartialEq, Eq)]
pub struct Session {
    pub combatants: Vec<Combatant>,
    pub killed_monsters: Vec<Combatant>,
}

/// What a [`Roster`] or a [`Session`] holds, as mathematical values.
pub struct RosterView {
    pub live: Seq<CombatantView>,
    pub killed: Seq<CombatantView>,
}

impl View for Roster {
    type V = RosterView;

    open spec fn view(&self) -> RosterView {
        RosterView { live: combatant_views(self.live@), killed: combatant_views(self.killed@) }
    }
}

impl View for Session {
    type V = RosterView;

    open spec fn view(&self) -> RosterView {
        RosterView {
            live: combatant_views(self.combatants@),
            killed: combatant_views(self.killed_monsters@),
        }
    }
}

/// The views of a list of templates with the number wanted of each.
pub open spec fn selection_views(s: Seq<(Monster, i32)>) -> Seq<(MonsterView, int)> {
    s.map_values(|p: (Monster, i32)| (p.0@, p.1 as int))
}

/// A combatant newly spawned from `t` under the name `name`: at full health.
pub open spec fn fresh(t: MonsterView, name: Seq<char>) -> CombatantView {
    CombatantView { instance_name: name, monster_template: t, current_hp: t.hp, max_hp: t.hp }
}

/// The test whether a combatant was spawned from the template called `name`.
pub open spec fn from_template(name: Seq<char>) -> spec_fn(CombatantView) -> bool {
    |c: CombatantView| c.monster_template.name == name
}

/// The combatants of `s` that were spawned from the template called `name`,
/// in their order.
pub open spec fn group_of(s: Seq<CombatantView>, name: Seq<char>) -> Seq<CombatantView> {
    s.filter(from_template(name))
}

/// How many combatants of `s` were spawned from the template called `name`.
pub open spec fn count_of(s: Seq<CombatantView>, name: Seq<char>) -> nat {
    group_of(s, name).len()
}

/// Whether no two combatants of `s` have the same instance name.
pub open spec fn names_unique(s: Seq<CombatantView>) -> bool {
    forall|i: int, j: int|
        0 <= i < j < s.len() ==> (#[trigger] s[i]).instance_name != (#[trigger] s[j]).instance_name
}

/// Whether no combatant of `s` is called `name`.
pub open spec fn name_absent(s: Seq<CombatantView>, name: Seq<char>) -> bool {
    forall|i: int| 0 <= i < s.len() ==> (#[trigger] s[i]).instance_name != name
}

/// Whether `i` is the place of the first combatant of `s` called `name`.
pub open spec fn first_named(s: Seq<CombatantView>, name: Seq<char>, i: int) -> bool {
    &&& 0 <= i < s.len()
    &&& s[i].instance_name == name
    &&& name_absent(s.take(i), name)
}

/// Where every combatant of `s` is of the template called `name`, all of
/// them count.
pub proof fn lemma_count_all(s: Seq<CombatantView>, name: Seq<char>)
    requires
        forall|i: int| 0 <= i < s.len() ==> (#[trigger] s[i]).monster_template.name == name,
    ensures
        count_of(s, name) == s.len(),
    decreases s.len(),
{
    if s.len() == 0 {
        s.lemma_filter_len(from_template(name));
    } else {
        lemma_count_all(s.drop_last(), name);
        assert(s.drop_last().push(s.last()) =~= s);
        s.drop_last().lemma_filter_len_push(from_template(name), s.last());
    }
}

/// Where no combatant of `s` is of the template called `name`, none counts.
pub proof fn lemma_count_none(s: Seq<CombatantView>, name: Seq<char>)
    requires
        forall|i: int| 0 <= i < s.len() ==> (#[trigger] s[i]).monster_template.name != name,
    ensures
        count_of(s, name) == 0,
    decreases s.len(),
{
    if s.len() == 0 {
        s.lemma_filter_len(from_template(name));
    } else {
        lemma_count_none(s.drop_last(), name);
        assert(s.drop_last().push(s.last()) =~= s);
        s.drop_last().lemma_filter_len_push(from_template(name), s.last());
    }
}

/// The count over two sequences is the sum of the counts.
pub proof fn lemma_count_concat(a: Seq<CombatantView>, b: Seq<CombatantView>, name: Seq<char>)
    ensures
        count_of(a + b, name) == count_of(a, name) + count_of(b, name),
{
    Seq::filter_distributes_over_add(a, b, from_template(name));
}

/// A combatant of the template called `name` at place `i` is counted in
/// every longer prefix.
pub proof fn lemma_count_grows(s: Seq<CombatantView>, name: Seq<char>, i: int, j: int)
    requires
        0 <= i < j <= s.len(),
        s[i].monster_template.name == name,
    ensures
        count_of(s.take(j), name) >= count_of(s.take(i), name) + 1,
{
    let p = from_template(name);
    assert(s.take(j).take(i + 1) =~= s.take(i).push(s[i]));
    s.take(j).lemma_filter_take_len(p, i + 1);
    s.take(i).lemma_filter_len_push(p, s[i]);
}

/// The first combatant of a name has one place.
pub proof fn lemma_first_named_once(s: Seq<CombatantView>, name: Seq<char>, i: int, j: int)
    requires
        first_named(s, name, i),
        first_named(s, name, j),
    ensures
        i == j,
{
    if j < i {
        assert(s.take(i)[j] == s[j]);
    } else if i < j {
        assert(s.take(j)[i] == s[i]);
    }
}

/// The name of the instance at place `k` of a batch of `count` instances of
/// `t`, spawned when `running` instances of that template exist: the bare
/// template name for a batch of one that is the first of its template, and
/// the numbered name that continues from `running` otherwise.
pub open spec fn batch_name(t: MonsterView, count: int, running: nat, k: int) -> Seq<char> {
    if count == 1 && running == 0 {
        t.name
    } else {
        numbered_name(t.name, (running + k + 1) as nat)
    }
}

/// A batch of `count` fresh instances of `t`.
pub open spec fn batch(t: MonsterView, count: int, running: nat) -> Seq<CombatantView> {
    Seq::new(
        if count > 0 {
            count as nat
        } else {
            0
        },
        |k: int| fresh(t, batch_name(t, count, running, k)),
    )
}

/// The live sequence spawned from `selections`: batch after batch, in the
/// order given; an entry that asks for none adds nothing.
pub open spec fn spawn_live(selections: Seq<(MonsterView, int)>) -> Seq<CombatantView>
    decreases selections.len(),
{
    if selections.len() == 0 {
        Seq::empty()
    } else {
        let prev = spawn_live(selections.drop_last());
        let t = selections.last().0;
        prev + batch(t, selections.last().1, count_of(prev, t.name))
    }
}

/// A spawn of one instance of one template gives one combatant, under the
/// bare template name and at full health.
pub proof fn lemma_spawn_one(t: MonsterView)
    ensures
        spawn_live(seq![(t, 1int)]) == seq![fresh(t, t.name)],
{
    let selections = seq![(t, 1int)];
    let prev = spawn_live(selections.drop_last());
    assert(selections.drop_last() =~= Seq::<(MonsterView, int)>::empty());
    assert(prev =~= Seq::<CombatantView>::empty());
    prev.lemma_filter_len(from_template(t.name));
    assert(spawn_live(selections) =~= seq![fresh(t, t.name)]);
}

/// A spawn of `n` instances of one template, `n` above one, gives `n`
/// combatants: the one at place `k` has the template's name followed by the
/// ordinal `k + 1`, and each is at full health.
pub proof fn lemma_spawn_many(t: MonsterView, n: int)
    requires
        n > 1,
    ensures
        spawn_live(seq![(t, n)]).len() == n,
        forall|k: int|
            0 <= k < n ==> #[trigger] spawn_live(seq![(t, n)])[k] == fresh(
                t,
                numbered_name(t.name, (k + 1) as nat),
            ),
        forall|k: int|
            0 <= k < n ==> (#[trigger] spawn_live(seq![(t, n)])[k]).current_hp == t.hp
                && spawn_live(seq![(t, n)])[k].max_hp == t.hp,
{
    let selections = seq![(t, n)];
    let prev = spawn_live(selections.drop_last());
    assert(selections.drop_last() =~= Seq::<(MonsterView, int)>::empty());
    assert(prev =~= Seq::<CombatantView>::empty());
    prev.lemma_filter_len(from_template(t.name));
    assert(spawn_live(selections) =~= batch(t, n, 0));
}

/// The roster `before` after it resumed from the snapshot `session`: the
/// snapshot's combatants behind its own, live and killed.
pub open spec fn resumed(before: RosterView, session: RosterView) -> RosterView {
    RosterView { live: before.live + session.live, killed: before.killed + session.killed }
}

/// The roster with nobody in it.
pub open spec fn empty_roster() -> RosterView {
    RosterView { live: Seq::empty(), killed: Seq::empty() }
}

/// An empty roster that resumes from a snapshot holds what the snapshot
/// holds: a roster is back as it was saved.
pub proof fn lemma_resume_restores(session: RosterView)
    ensures
        resumed(empty_roster(), session) == session,
{
    assert(Seq::<CombatantView>::empty() + session.live =~= session.live);
    assert(Seq::<CombatantView>::empty() + session.killed =~= session.killed);
}

/// `value` brought down to `max_hp` where it is above, and then up to zero
/// where it is below.
pub open spec fn clamped_hp(value: int, max_hp: int) -> int {
    let within = if value > max_hp {
        max_hp
    } else {
        value
    };
    if within < 0 {
        0
    } else {
        within
    }
}

/// Whether the roster went from `before` to `after` by the kill of the
/// combatant called `name`: the first live combatant of that name left
/// the live sequence and was appended, unchanged, to the killed; where
/// nobody is called so, nothing changed.
pub open spec fn kill_done(before: RosterView, after: RosterView, name: Seq<char>) -> bool {
    &&& name_absent(before.live, name) ==> after == before
    &&& forall|i: int|
        first_named(before.live, name, i) ==> after == (RosterView {
            live: before.live.remove(i),
            killed: before.killed.push(before.live[i]),
        })
}

/// A name that is not absent has a first place.
pub proof fn lemma_first_named_exists(s: Seq<CombatantView>, name: Seq<char>)
    requires
        !name_absent(s, name),
    ensures
        exists|i: int| first_named(s, name, i),
    decreases s.len(),
{
    let head = s.drop_last();
    if s.len() > 0 && !name_absent(head, name) {
        lemma_first_named_exists(head, name);
        let i = choose|i: int| first_named(head, name, i);
        assert(head.take(i) =~= s.take(i));
        assert(first_named(s, name, i));
    } else {
        let k = choose|k: int| 0 <= k < s.len() && s[k].instance_name == name;
        assert(k == s.len() - 1) by {
            if k < s.len() - 1 {
                assert(head[k] == s[k]);
            }
        }
        assert(s.take(k) =~= head);
        assert(first_named(s, name, k));
    }
}

/// A kill neither loses nor doubles a combatant: the live and the killed
/// together hold after it what they held before, and as many.
pub proof fn lemma_kill_keeps_all(before: RosterView, after: RosterView, name: Seq<char>)
    requires
        kill_done(before, after, name),
    ensures
        after.live.len() + after.killed.len() == before.live.len() + before.killed.len(),
        (after.live + after.killed).to_multiset() == (before.live + before.killed).to_multiset(),
        name_absent(before.live, name) || after.killed.len() == before.killed.len() + 1,
{
    if !name_absent(before.live, name) {
        lemma_first_named_exists(before.live, name);
        let i = choose|i: int| first_named(before.live, name, i);
        let c = before.live[i];
        lemma_multiset_commutative(after.live, after.killed);
        lemma_multiset_commutative(before.live, before.killed);
        to_multiset_remove(before.live, i);
        to_multiset_build(before.killed, c);
        before.live.to_multiset_ensures();
        assert(before.live.contains(c));
        assert(before.live.to_multiset().remove(c).add(before.killed.to_multiset().insert(c))
            =~= before.live.to_multiset().add(before.killed.to_multiset()));
    }
}

/// Whether the roster went from `before` to `after` by setting the current
/// hit points of the combatant called `name` to `value`: the first live
/// combatant of that name has them, and nothing else changed; where nobody
/// is called so, nothing changed.
pub open spec fn hp_set(before: RosterView, after: RosterView, name: Seq<char>, value: int) -> bool {
    &&& name_absent(before.live, name) ==> after == before
    &&& forall|i: int|
        first_named(before.live, name, i) ==> after == (RosterView {
            live: before.live.update(i, (CombatantView { current_hp: value, ..before.live[i] })),
            killed: before.killed,
        })
}

/// Whether the roster went from `before` to `after` by setting the current
/// hit points of the combatant called `name` to `value` brought within
/// zero and the combatant's maximum.
pub open spec fn hp_set_clamped(
    before: RosterView,
    after: RosterView,
    name: Seq<char>,
    value: int,
) -> bool {
    &&& name_absent(before.live, name) ==> after == before
    &&& forall|i: int|
        first_named(before.live, name, i) ==> after == (RosterView {
            live: before.live.update(
                i,
                (CombatantView {
                    current_hp: clamped_hp(value, before.live[i].max_hp),
                    ..before.live[i]
                }),
            ),
            killed: before.killed,
        })
}

/// The experience of the templates of `s`, summed.
pub open spec fn xp_sum(s: Seq<CombatantView>) -> int
    decreases s.len(),
{
    if s.len() == 0 {
        0
    } else {
        xp_sum(s.drop_last()) + s.last().monster_template.exp
    }
}

/// Counts the combatants of `list` spawned from the template called `name`.
pub fn count_named(list: &Vec<Combatant>, name: &String) -> (r: usize)
    ensures
        r == count_of(combatant_views(list@), name@),
{
    let ghost views = combatant_views(list@);
    let ghost same = from_template(name@);
    let mut r: usize = 0;
    let mut i: usize = 0;
    proof {
        assert(views.take(0) =~= Seq::<CombatantView>::empty());
        views.take(0).lemma_filter_len(same);
    }
    while i < list.len()
        invariant
            i <= list.len(),
            views == combatant_views(list@),
            same == from_template(name@),
            r == views.take(i as int).filter(same).len(),
            r <= i,
        decreases list.len() - i,
    {
        proof {
            assert(views.take(i + 1) =~= views.take(i as int).push(views[i as int]));
            views.take(i as int).lemma_filter_push(views[i as int], same);
        }
        if list[i].monster_template.name == *name {
            r += 1;
        }
        i += 1;
    }
    assert(views.take(i as int) =~= views);
    r
}

fn clone_list(list: &Vec<Combatant>) -> (r: Vec<Combatant>)
    ensures
        combatant_views(r@) == combatant_views(list@),
{
    let mut r: Vec<Combatant> = Vec::new();
    let mut i: usize = 0;
    while i < list.len()
        invariant
            i <= list.len(),
            combatant_views(r@) == combatant_views(list@).take(i as int),
        decreases list.len() - i,
    {
        let c = list[i].clone();
        let ghost prev = r@;
        r.push(c);
        assert(combatant_views(prev).len() == i);
        i += 1;
        assert(combatant_views(r@) =~= combatant_views(list@).take(i as int));
    }
    assert(combatant_views(list@).take(i as int) =~= combatant_views(list@));
    r
}

impl Roster {
    /// Whether the roster is well formed: no two live combatants share an
    /// instance name.
    pub open spec fn wf(&self) -> bool {
        names_unique(self@.live)
    }

    /// A roster with nobody in it.
    pub fn new() -> (r: Roster)
        ensures
            r@ == empty_roster(),
            r.wf(),
            sound(r@.live),
    {
        let r = Roster { live: Vec::new(), killed: Vec::new() };
        assert(r@.live =~= Seq::empty() && r@.killed =~= Seq::empty());
        r
    }

    /// Spawns a new encounter: for each template the number asked for, named
    /// by the naming rule; nobody is killed yet.
    ///
    /// One instance of one template has the bare template name; more
    /// instances of one template have the template name and the ordinals
    /// from 1; each is at full health. Where the templates' names are
    /// plain, the live sequence is sound.
    pub fn spawn(selections: &Vec<(Monster, i32)>) -> (r: Roster)
        ensures
            r@.live == spawn_live(selection_views(selections@)),
            r@.killed.len() == 0,
            selections@.len() == 1 && selections@[0].1 == 1 ==> r@.live == seq![
                fresh(selections@[0].0@, selections@[0].0@.name),
            ],
            selections@.len() == 1 && selections@[0].1 > 1 ==> r@.live.len() == selections@[0].1
                && forall|k: int|
                0 <= k < selections@[0].1 ==> #[trigger] r@.live[k] == fresh(
                    selections@[0].0@,
                    numbered_name(selections@[0].0@.name, (k + 1) as nat),
                ),
            selection_plain(selection_views(selections@)) ==> sound(r@.live),
    {
        let ghost wanted = selection_views(selections@);
        let mut live: Vec<Combatant> = Vec::new();
        let mut i: usize = 0;
        assert(wanted.take(0) =~= Seq::<(MonsterView, int)>::empty());
        while i < selections.len()
            invariant
                i <= selections.len(),
                wanted == selection_views(selections@),
                combatant_views(live@) == spawn_live(wanted.take(i as int)),
            decreases selections.len() - i,
        {
            let template = &selections[i].0;
            let count = selections[i].1;
            let running = count_named(&live, &template.name);
            let ghost prev = combatant_views(live@);
            let ghost t = template@;
            proof {
                assert(wanted[i as int] == (t, count as int));
                assert(wanted.take(i + 1).drop_last() =~= wanted.take(i as int));
                assert(wanted.take(i + 1).last() == wanted[i as int]);
            }
            let mut k: i32 = 0;
            assert(prev + batch(t, count as int, running as nat).take(0) =~= prev);
            while k < count
                invariant
                    0 <= k,
                    k <= count || k == 0,
                    t == template@,
                    combatant_views(live@) == prev + batch(t, count as int, running as nat).take(
                        k as int,
                    ),
                decreases count - k,
            {
                let ghost before = live@;
                let ghost whole = batch(t, count as int, running as nat);
                assert(whole.len() == count);
                let name = if count == 1 && running == 0 {
                    template.name.clone()
                } else {
                    make_numbered_name(&template.name, (running as u128) + (k as u128) + 1)
                };
                let c = Combatant {
                    instance_name: name,
                    monster_template: template.clone(),
                    current_hp: template.hp,
                    max_hp: template.hp,
                };
                assert(c@ == fresh(t, batch_name(t, count as int, running as nat, k as int)));
                live.push(c);
                assert(combatant_views(live@) =~= combatant_views(before).push(c@));
                assert(whole.take(k + 1) =~= whole.take(k as int).push(whole[k as int]));
                k += 1;
                assert(combatant_views(live@) =~= prev + whole.take(k as int));
            }
            assert(batch(t, count as int, running as nat).take(k as int) =~= batch(
                t,
                count as int,
                running as nat,
            ));
            i += 1;
        }
        proof {
            assert(wanted.take(i as int) =~= wanted);
            if selection_plain(wanted) {
                lemma_spawn_sound(wanted);
            }
            if selections@.len() == 1 {
                let t = selections@[0].0@;
                let n = selections@[0].1 as int;
                assert(wanted =~= seq![(t, n)]);
                if n == 1 {
                    lemma_spawn_one(t);
                } else if n > 1 {
                    lemma_spawn_many(t, n);
                }
            }
        }
        Roster { live, killed: Vec::new() }
    }

    /// The place of the first live combatant called `name`, if there is one.
    pub fn find_live(&self, name: &str) -> (r: Option<usize>)
        ensures
            match r {
                Some(i) => first_named(self@.live, name@, i as int),
                None => name_absent(self@.live, name@),
            },
    {
        let wanted = String::from_str(name);
        let mut i: usize = 0;
        while i < self.live.len()
            invariant
                i <= self.live.len(),
                wanted@ == name@,
                name_absent(self@.live.take(i as int), name@),
            decreases self.live.len() - i,
        {
            if self.live[i].instance_name == wanted {
                return Some(i);
            }
            i += 1;
        }
        assert(self@.live.take(i as int) =~= self@.live);
        None
    }

    /// Kills the live combatant called `instance_name`: it leaves the live
    /// sequence and is appended, unchanged, to the killed. Where nobody is
    /// called so, nothing changes.
    pub fn kill(&mut self, instance_name: &str)
        ensures
            kill_done(old(self)@, final(self)@, instance_name@),
            final(self)@.live.len() + final(self)@.killed.len() == old(self)@.live.len()
                + old(self)@.killed.len(),
            old(self).wf() ==> final(self).wf(),
            sound(old(self)@.live) ==> sound(final(self)@.live),
    {
        match self.find_live(instance_name) {
            None => {},
            Some(i) => {
                let c = self.live.remove(i);
                self.killed.push(c);
                proof {
                    let before = old(self)@.live;
                    assert(self@.live =~= before.remove(i as int));
                    assert(self@.killed =~= old(self)@.killed.push(before[i as int]));
                    assert forall|j: int| first_named(before, instance_name@, j) implies j
                        == i by {
                        lemma_first_named_once(before, instance_name@, i as int, j);
                    }
                    assert(before[i as int].instance_name == instance_name@);
                }
            },
        }
    }

    /// Sets the current hit points of the live combatant called
    /// `instance_name` to `value`, whatever it is. Where nobody is called so,
    /// nothing changes.
    pub fn set_hp(&mut self, instance_name: &str, value: i32)
        ensures
            hp_set(old(self)@, final(self)@, instance_name@, value as int),
            old(self).wf() ==> final(self).wf(),
            sound(old(self)@.live) ==> sound(final(self)@.live),
    {
        match self.find_live(instance_name) {
            None => {},
            Some(i) => {
                let mut c = self.live.remove(i);
                c.current_hp = value;
                self.live.insert(i, c);
                proof {
                    let before = old(self)@.live;
                    assert(self@.live =~= before.update(
                        i as int,
                        (CombatantView { current_hp: value as int, ..before[i as int] }),
                    ));
                    assert forall|j: int| first_named(before, instance_name@, j) implies j
                        == i by {
                        lemma_first_named_once(before, instance_name@, i as int, j);
                    }
                }
            },
        }
    }

    /// Sets the current hit points of the live combatant called
    /// `instance_name` to `value` brought within zero and the combatant's
    /// maximum. Where nobody is called so, nothing changes.
    pub fn set_hp_clamped(&mut self, instance_name: &str, value: i32)
        ensures
            hp_set_clamped(old(self)@, final(self)@, instance_name@, value as int),
            old(self).wf() ==> final(self).wf(),
            sound(old(self)@.live) ==> sound(final(self)@.live),
    {
        match self.find_live(instance_name) {
            None => {},
            Some(i) => {
                let max_hp = self.live[i].max_hp;
                let within = if value > max_hp {
                    max_hp
                } else {
                    value
                };
                let within = if within < 0 {
                    0
                } else {
                    within
                };
                proof {
                    let before = self@.live;
                    assert forall|j: int| first_named(before, instance_name@, j) implies j
                        == i by {
                        lemma_first_named_once(before, instance_name@, i as int, j);
                    }
                }
                self.set_hp(instance_name, within);
            },
        }
    }

    /// The experience earned so far: the sum over the killed combatants of
    /// their templates' experience.
    pub fn total_xp(&self) -> (r: i128)
        ensures
            r as int == xp_sum(self@.killed),
    {
        let ghost views = self@.killed;
        let mut total: i128 = 0;
        let mut i: usize = 0;
        assert(views.take(0) =~= Seq::<CombatantView>::empty());
        while i < self.killed.len()
            invariant
                i <= self.killed.len(),
                views == self@.killed,
                total as int == xp_sum(views.take(i as int)),
                -2147483648 * i <= total <= 2147483647 * i,
            decreases self.killed.len() - i,
        {
            assert(views.take(i + 1).drop_last() =~= views.take(i as int));
            total = total + (self.killed[i].monster_template.exp as i128);
            i += 1;
        }
        assert(views.take(i as int) =~= views);
        total
    }

    /// A roster that holds what the snapshot holds.
    pub fn from_session(session: Session) -> (r: Roster)
        ensures
            r@ == session@,
    {
        Roster { live: session.combatants, killed: session.killed_monsters }
    }

    /// A snapshot of the roster.
    pub fn to_session(&self) -> (s: Session)
        ensures
            s@ == self@,
    {
        Session { combatants: clone_list(&self.live), killed_monsters: clone_list(&self.killed) }
    }

    /// Resumes from a snapshot: its combatants are appended to the live
    /// sequence and its killed to the killed, as they are.
    pub fn resume(&mut self, session: Session)
        ensures
            final(self)@ == resumed(old(self)@, session@),
    {
        let mut rest = session;
        self.live.append(&mut rest.combatants);
        self.killed.append(&mut rest.killed_monsters);
        assert(self@.live =~= old(self)@.live + session@.live);
        assert(self@.killed =~= old(self)@.killed + session@.killed);
    }
}

} // verus!
