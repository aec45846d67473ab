use mass_combat::encounter::{Action, Encounter};
use mass_combat::template::{Ability, Attack, Monster};

fn bandit() -> Monster {
    Monster {
        name: String::from("Bandit"),
        hp: 11,
        ac: 12,
        pb: 2,
        str_mod: 0,
        dex_mod: 1,
        con_mod: 1,
        int_mod: 0,
        wis_mod: 0,
        cha_mod: 0,
        exp: 25,
        attacks: vec![Attack {
            attack_name: String::from("Scimitar"),
            ability_used: Ability::Dex,
            damage_die: 6,
            num_dice: 1,
            num_attacks: 2,
            is_saving_throw: false,
        }],
    }
}

fn live_names(e: &Encounter) -> Vec<String> {
    e.roster.live.iter().map(|c| c.instance_name.clone()).collect()
}

#[test]
fn start_spawns_with_an_empty_log() {
    let e = Encounter::start(&vec![(bandit(), 2)]);
    assert_eq!(live_names(&e), vec!["Bandit 1", "Bandit 2"]);
    assert!(e.roster.killed.is_empty());
    assert_eq!(e.log.len(), 0);
}

#[test]
fn handle_kill_and_set_hp_change_the_roster_only() {
    let mut e = Encounter::start(&vec![(bandit(), 3)]);
    e.handle(&Action::SetHp { instance_name: String::from("Bandit 2"), value: -4 });
    e.handle(&Action::SetHpWithin { instance_name: String::from("Bandit 3"), value: 40 });
    e.handle(&Action::Kill { instance_name: String::from("Bandit 1") });
    e.handle(&Action::Kill { instance_name: String::from("Bandit 1") });
    assert_eq!(live_names(&e), vec!["Bandit 2", "Bandit 3"]);
    assert_eq!(e.roster.live[0].current_hp, -4);
    assert_eq!(e.roster.live[1].current_hp, 11);
    assert_eq!(e.roster.killed.len(), 1);
    assert_eq!(e.roster.total_xp(), 25);
    assert_eq!(e.log.len(), 0);
}

#[test]
fn handle_reconcile_changes_the_live_only() {
    let mut e = Encounter::start(&vec![(bandit(), 2)]);
    e.handle(&Action::Kill { instance_name: String::from("Bandit 1") });
    e.handle(&Action::Reconcile { desired: vec![(bandit(), 3)] });
    assert_eq!(live_names(&e), vec!["Bandit 2", "Bandit 3", "Bandit 4"]);
    assert_eq!(e.roster.killed.len(), 1);
    assert_eq!(e.log.len(), 0);
}

#[test]
fn handle_attack_and_save_change_the_log_only() {
    let mut e = Encounter::start(&vec![(bandit(), 2)]);
    let before = e.roster.to_session();
    e.handle(&Action::UseAttack {
        instance_name: String::from("Bandit 2"),
        attack_name: String::from("Scimitar"),
    });
    assert_eq!(e.log.len(), 2);
    e.handle(&Action::MakeSave { instance_name: String::from("Bandit 1"), ability: Ability::Wis });
    assert_eq!(e.log.len(), 3);
    e.handle(&Action::MakeSave { instance_name: String::from("Bandit 9"), ability: Ability::Wis });
    e.handle(&Action::UseAttack {
        instance_name: String::from("Bandit 1"),
        attack_name: String::from("Bow"),
    });
    assert_eq!(e.log.len(), 3);
    assert!(e.log.entries[0].contains("Bandit 2 - Scimitar attack 1: "));
    assert!(e.log.entries[1].contains("Bandit 2 - Scimitar attack 2: "));
    assert!(e.log.entries[2].contains("Bandit 1 wis save: "));
    assert_eq!(e.roster.live, before.combatants);
    assert_eq!(e.roster.killed, before.killed_monsters);
}

#[test]
fn resume_takes_the_snapshot() {
    let mut first = Encounter::start(&vec![(bandit(), 3)]);
    first.handle(&Action::SetHp { instance_name: String::from("Bandit 3"), value: 5 });
    first.handle(&Action::Kill { instance_name: String::from("Bandit 2") });
    let again = Encounter::resume(first.roster.to_session());
    assert_eq!(again.roster, first.roster);
    assert_eq!(again.log.len(), 0);
}
