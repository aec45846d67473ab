use mass_combat::roster::{count_named, Combatant, Roster, Session};
use mass_combat::template::{Ability, Attack, Monster};

fn monster(name: &str, hp: i32, exp: i32) -> Monster {
    Monster {
        name: String::from(name),
        hp,
        ac: 15,
        pb: 2,
        str_mod: -1,
        dex_mod: 2,
        con_mod: 0,
        int_mod: 0,
        wis_mod: -1,
        cha_mod: -1,
        exp,
        attacks: vec![Attack {
            attack_name: String::from("Scimitar"),
            ability_used: Ability::Dex,
            damage_die: 6,
            num_dice: 1,
            num_attacks: 1,
            is_saving_throw: false,
        }],
    }
}

fn goblin() -> Monster {
    monster("Goblin", 7, 50)
}

fn names(list: &Vec<Combatant>) -> Vec<String> {
    list.iter().map(|c| c.instance_name.clone()).collect()
}

fn hps(list: &Vec<Combatant>) -> Vec<i32> {
    list.iter().map(|c| c.current_hp).collect()
}

#[test]
fn new_roster_is_empty() {
    let roster = Roster::new();
    assert!(roster.live.is_empty());
    assert!(roster.killed.is_empty());
    assert_eq!(roster.total_xp(), 0);
}

#[test]
fn spawn_one_uses_the_bare_name() {
    let roster = Roster::spawn(&vec![(goblin(), 1)]);
    assert_eq!(names(&roster.live), vec![String::from("Goblin")]);
    assert_eq!(roster.live[0].current_hp, 7);
    assert_eq!(roster.live[0].max_hp, 7);
    assert_eq!(roster.live[0].monster_template, goblin());
    assert!(roster.killed.is_empty());
}

#[test]
fn spawn_many_numbers_from_one() {
    let roster = Roster::spawn(&vec![(goblin(), 12)]);
    assert_eq!(roster.live.len(), 12);
    for (k, c) in roster.live.iter().enumerate() {
        assert_eq!(c.instance_name, format!("Goblin {}", k + 1));
        assert_eq!(c.current_hp, 7);
        assert_eq!(c.max_hp, 7);
    }
}

#[test]
fn spawn_omits_counts_of_zero_or_less() {
    let roster = Roster::spawn(&vec![(goblin(), 0), (monster("Orc", 15, 100), -3)]);
    assert!(roster.live.is_empty());
    let roster = Roster::spawn(&vec![(goblin(), 0), (monster("Orc", 15, 100), 2)]);
    assert_eq!(names(&roster.live), vec!["Orc 1", "Orc 2"]);
}

#[test]
fn spawn_of_nothing_is_empty() {
    let roster = Roster::spawn(&Vec::new());
    assert!(roster.live.is_empty());
    assert!(roster.killed.is_empty());
}

#[test]
fn spawn_keeps_the_order_of_the_selection() {
    let roster = Roster::spawn(&vec![(monster("Orc", 15, 100), 2), (goblin(), 1)]);
    assert_eq!(names(&roster.live), vec!["Orc 1", "Orc 2", "Goblin"]);
    assert_eq!(hps(&roster.live), vec![15, 15, 7]);
}

#[test]
fn spawn_continues_the_numbers_of_a_template() {
    let roster = Roster::spawn(&vec![(goblin(), 1), (goblin(), 1), (goblin(), 2)]);
    assert_eq!(names(&roster.live), vec!["Goblin", "Goblin 2", "Goblin 3", "Goblin 4"]);
}

#[test]
fn count_named_counts_by_template() {
    let roster = Roster::spawn(&vec![(goblin(), 3), (monster("Orc", 15, 100), 2)]);
    assert_eq!(count_named(&roster.live, &String::from("Goblin")), 3);
    assert_eq!(count_named(&roster.live, &String::from("Orc")), 2);
    assert_eq!(count_named(&roster.live, &String::from("Goblin 1")), 0);
}

#[test]
fn find_live_gives_the_place() {
    let roster = Roster::spawn(&vec![(goblin(), 3)]);
    assert_eq!(roster.find_live("Goblin 3"), Some(2));
    assert_eq!(roster.find_live("Goblin"), None);
}

#[test]
fn kill_moves_one_combatant() {
    let mut roster = Roster::spawn(&vec![(goblin(), 3)]);
    roster.set_hp("Goblin 2", 4);
    roster.kill("Goblin 2");
    assert_eq!(names(&roster.live), vec!["Goblin 1", "Goblin 3"]);
    assert_eq!(names(&roster.killed), vec!["Goblin 2"]);
    assert_eq!(roster.killed[0].current_hp, 4);
    assert_eq!(roster.killed[0].max_hp, 7);
    assert_eq!(roster.live.len() + roster.killed.len(), 3);
}

#[test]
fn kill_of_an_unknown_name_changes_nothing() {
    let mut roster = Roster::spawn(&vec![(goblin(), 2)]);
    roster.kill("Goblin 2");
    let before = roster.to_session();
    roster.kill("Goblin 2");
    roster.kill("Orc");
    assert_eq!(roster.live, before.combatants);
    assert_eq!(roster.killed, before.killed_monsters);
}

#[test]
fn killed_keep_the_order_of_their_deaths() {
    let mut roster = Roster::spawn(&vec![(goblin(), 3)]);
    roster.kill("Goblin 3");
    roster.kill("Goblin 1");
    assert_eq!(names(&roster.killed), vec!["Goblin 3", "Goblin 1"]);
    assert_eq!(names(&roster.live), vec!["Goblin 2"]);
}

#[test]
fn set_hp_overwrites_without_clamping() {
    let mut roster = Roster::spawn(&vec![(goblin(), 2)]);
    roster.set_hp("Goblin 1", -5);
    roster.set_hp("Goblin 2", 9000);
    assert_eq!(hps(&roster.live), vec![-5, 9000]);
    assert_eq!(roster.live[0].max_hp, 7);
    assert_eq!(roster.live[1].max_hp, 7);
    assert_eq!(names(&roster.live), vec!["Goblin 1", "Goblin 2"]);
}

#[test]
fn set_hp_of_an_unknown_name_changes_nothing() {
    let mut roster = Roster::spawn(&vec![(goblin(), 2)]);
    roster.set_hp("Goblin 3", 1);
    assert_eq!(hps(&roster.live), vec![7, 7]);
}

#[test]
fn set_hp_clamped_stays_within_zero_and_the_maximum() {
    let mut roster = Roster::spawn(&vec![(goblin(), 3)]);
    roster.set_hp_clamped("Goblin 1", -5);
    roster.set_hp_clamped("Goblin 2", 9000);
    roster.set_hp_clamped("Goblin 3", 3);
    roster.set_hp_clamped("Goblin 4", 3);
    assert_eq!(hps(&roster.live), vec![0, 7, 3]);
}

#[test]
fn total_xp_sums_the_killed() {
    let mut roster = Roster::spawn(&vec![(goblin(), 2), (monster("Orc", 15, 100), 1)]);
    assert_eq!(roster.total_xp(), 0);
    roster.kill("Goblin 1");
    assert_eq!(roster.total_xp(), 50);
    roster.kill("Orc");
    assert_eq!(roster.total_xp(), 150);
    roster.kill("Goblin 2");
    assert_eq!(roster.total_xp(), 200);
}

#[test]
fn session_holds_what_the_roster_holds() {
    let mut roster = Roster::spawn(&vec![(goblin(), 3)]);
    roster.set_hp("Goblin 1", 2);
    roster.kill("Goblin 3");
    let session = roster.to_session();
    assert_eq!(session.combatants, roster.live);
    assert_eq!(session.killed_monsters, roster.killed);
    let mut resumed = Roster::spawn(&Vec::new());
    resumed.resume(session);
    assert_eq!(resumed, roster);
}

#[test]
fn resume_appends_as_given() {
    let mut roster = Roster::spawn(&vec![(goblin(), 1)]);
    let other = Roster::spawn(&vec![(goblin(), 1)]);
    roster.resume(Session { combatants: other.live, killed_monsters: Vec::new() });
    assert_eq!(names(&roster.live), vec!["Goblin", "Goblin"]);
}

#[test]
fn combatant_keeps_the_template_it_was_spawned_from() {
    let mut template = goblin();
    let roster = Roster::spawn(&vec![(template.clone(), 1)]);
    template.hp = 99;
    assert_eq!(roster.live[0].monster_template.hp, 7);
}

#[test]
fn encounter_from_spawn_to_reconcile() {
    let mut roster = Roster::spawn(&vec![(goblin(), 3)]);
    assert_eq!(names(&roster.live), vec!["Goblin 1", "Goblin 2", "Goblin 3"]);
    for c in &roster.live {
        assert_eq!(c.current_hp, 7);
        assert_eq!(c.max_hp, 7);
    }
    roster.kill("Goblin 2");
    assert_eq!(names(&roster.live), vec!["Goblin 1", "Goblin 3"]);
    assert_eq!(names(&roster.killed), vec!["Goblin 2"]);
    assert_eq!(roster.total_xp(), 50);
    roster.reconcile(&vec![(goblin(), 2)]);
    assert_eq!(names(&roster.live), vec!["Goblin 1", "Goblin 3"]);
    roster.reconcile(&vec![(goblin(), 3)]);
    assert_eq!(names(&roster.live), vec!["Goblin 1", "Goblin 3", "Goblin 4"]);
    assert_eq!(names(&roster.killed), vec!["Goblin 2"]);
}

#[test]
fn spawn_with_plain_names_gives_names_of_their_own() {
    let selections =
        vec![(goblin(), 3), (monster("Orc", 15, 100), 1), (goblin(), 2), (monster("Orc", 15, 100), 1)];
    assert!(mass_combat::identity::selection_is_plain(&selections));
    let roster = Roster::spawn(&selections);
    let mut seen = names(&roster.live);
    assert_eq!(seen, vec!["Goblin 1", "Goblin 2", "Goblin 3", "Orc", "Goblin 4", "Goblin 5", "Orc 2"]);
    seen.sort();
    seen.dedup();
    assert_eq!(seen.len(), 7);
}

#[test]
fn a_template_with_a_numbered_name_is_not_plain() {
    assert!(mass_combat::identity::is_plain_name("Goblin"));
    assert!(mass_combat::identity::is_plain_name("Goblin 01"));
    assert!(!mass_combat::identity::is_plain_name("Goblin 2"));
    let selections = vec![(goblin(), 2), (monster("Goblin 2", 9, 10), 1)];
    assert!(!mass_combat::identity::selection_is_plain(&selections));
    let roster = Roster::spawn(&selections);
    assert_eq!(names(&roster.live), vec!["Goblin 1", "Goblin 2", "Goblin 2"]);
}

#[test]
fn from_session_takes_the_snapshot_as_it_is() {
    let mut roster = Roster::spawn(&vec![(goblin(), 2)]);
    roster.kill("Goblin 1");
    let again = Roster::from_session(roster.to_session());
    assert_eq!(again, roster);
}
