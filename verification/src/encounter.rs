//! The encounter: a roster and its log, and the actions of the operator.

use vstd::prelude::*;
use crate::event_log::EventLog;
use crate::identity::sound;
use crate::reconcile::reconciled;
use crate::resolution::{attack_used, save_made};
use crate::roster::{
    empty_roster,
    hp_set,
    hp_set_clamped,
    kill_done,
    lemma_resume_restores,
    resumed,
    selection_views,
    spawn_live,
    Roster,
    RosterView,
    Session,
};
use crate::template::{Ability, Monster};

verus! {

/// What the operator can do to a running encounter.
#[derive(Debug, PartialEq, Eq)]
pub enum Action {
    /// Kill the live combatant of this name.
    Kill { instance_name: String },
    /// Set the current hit points of the live combatant of this name.
    SetHp { instance_name: String, value: i32 },
    /// Set the current hit points of the live combatant of this name,
    /// within zero and its maximum.
    SetHpWithin { instance_name: String, value: i32 },
    /// Bring the live sequence to this composition.
    Reconcile { desired: Vec<(Monster, i32)> },
    /// Have the live combatant of this name use its attack of this name.
    UseAttack { instance_name: String, attack_name: String },
    /// Have the live combatant of this name make a save with this ability.
    MakeSave { instance_name: String, ability: Ability },
}

/// A running encounter.
#[derive(Debug, PartialEq, Eq)]
pub struct Encounter {
    pub roster: Roster,
    pub log: EventLog,
}

/// What an [`Encounter`] holds, as mathematical values.
pub struct EncounterView {
    pub roster: RosterView,
    pub log: Seq<Seq<char>>,
}

impl View for Encounter {
    type V = EncounterView;

    open spec fn view(&self) -> EncounterView {
        EncounterView { roster: self.roster@, log: self.log@ }
    }
}

/// Whether the encounter went from `before` to `after` by `action`: an
/// action on the roster leaves the log as it was, and one that is reported
/// leaves the roster as it was.
pub open spec fn handled(before: EncounterView, after: EncounterView, action: Action) -> bool {
    match action {
        Action::Kill { instance_name } => {
            &&& kill_done(before.roster, after.roster, instance_name@)
            &&& after.log == before.log
        },
        Action::SetHp { instance_name, value } => {
            &&& hp_set(before.roster, after.roster, instance_name@, value as int)
            &&& after.log == before.log
        },
        Action::SetHpWithin { instance_name, value } => {
            &&& hp_set_clamped(before.roster, after.roster, instance_name@, value as int)
            &&& after.log == before.log
        },
        Action::Reconcile { desired } => {
            &&& after.roster == reconciled(before.roster, selection_views(desired@))
            &&& after.log == before.log
        },
        Action::UseAttack { instance_name, attack_name } => {
            &&& after.roster == before.roster
            &&& attack_used(
                before.roster.live,
                before.log,
                after.log,
                instance_name@,
                attack_name@,
            )
        },
        Action::MakeSave { instance_name, ability } => {
            &&& after.roster == before.roster
            &&& save_made(before.roster.live, before.log, after.log, instance_name@, ability)
        },
    }
}

impl Encounter {
    /// Starts a new encounter with what `selections` spawn and an empty log.
    pub fn start(selections: &Vec<(Monster, i32)>) -> (r: Encounter)
        ensures
            r@.roster.live == spawn_live(selection_views(selections@)),
            r@.roster.killed.len() == 0,
            r@.log.len() == 0,
    {
        Encounter { roster: Roster::spawn(selections), log: EventLog::new() }
    }

    /// Takes an encounter up again from a snapshot: a roster that holds
    /// what the snapshot holds, and an empty log.
    pub fn resume(session: Session) -> (r: Encounter)
        ensures
            r@.roster == resumed(empty_roster(), session@),
            r@.roster == session@,
            r@.log.len() == 0,
    {
        let mut roster = Roster::new();
        roster.resume(session);
        proof {
            lemma_resume_restores(session@);
        }
        Encounter { roster, log: EventLog::new() }
    }

    /// Does what `action` asks for. A sound live sequence stays sound under
    /// every action but a reconciliation, of which the roster's own
    /// function says when it does.
    pub fn handle(&mut self, action: &Action)
        ensures
            handled(old(self)@, final(self)@, *action),
            sound(old(self)@.roster.live) && !(*action is Reconcile) ==> sound(
                final(self)@.roster.live,
            ),
    {
        match action {
            Action::Kill { instance_name } => {
                self.roster.kill(instance_name.as_str());
            },
            Action::SetHp { instance_name, value } => {
                self.roster.set_hp(instance_name.as_str(), *value);
            },
            Action::SetHpWithin { instance_name, value } => {
                self.roster.set_hp_clamped(instance_name.as_str(), *value);
            },
            Action::Reconcile { desired } => {
                self.roster.reconcile(desired);
            },
            Action::UseAttack { instance_name, attack_name } => {
                self.roster.use_attack(instance_name.as_str(), attack_name.as_str(), &mut self.log);
            },
            Action::MakeSave { instance_name, ability } => {
                self.roster.make_save(instance_name.as_str(), *ability, &mut self.log);
            },
        }
    }
}

} // verus!
