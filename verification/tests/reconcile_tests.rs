use mass_combat::reconcile::{highest_ordinal, sorted_group};
use mass_combat::roster::{Combatant, Roster, Session};
use mass_combat::template::Monster;

fn template(name: &str, hp: i32) -> Monster {
    Monster {
        name: String::from(name),
        hp,
        ac: 12,
        pb: 2,
        str_mod: 1,
        dex_mod: 0,
        con_mod: 0,
        int_mod: 0,
        wis_mod: 0,
        cha_mod: 0,
        exp: 25,
        attacks: Vec::new(),
    }
}

fn named(instance_name: &str, template_name: &str, hp: i32) -> Combatant {
    Combatant {
        instance_name: String::from(instance_name),
        monster_template: template(template_name, 7),
        current_hp: hp,
        max_hp: 7,
    }
}

fn names(list: &Vec<Combatant>) -> Vec<String> {
    list.iter().map(|c| c.instance_name.clone()).collect()
}

fn hps(list: &Vec<Combatant>) -> Vec<i32> {
    list.iter().map(|c| c.current_hp).collect()
}

#[test]
fn reconcile_keeps_names_and_hit_points() {
    let mut roster = Roster::spawn(&vec![(template("Goblin", 7), 2)]);
    roster.set_hp("Goblin 1", 3);
    roster.set_hp("Goblin 2", 1);
    roster.reconcile(&vec![(template("Goblin", 7), 4)]);
    assert_eq!(names(&roster.live), vec!["Goblin 1", "Goblin 2", "Goblin 3", "Goblin 4"]);
    assert_eq!(hps(&roster.live), vec![3, 1, 7, 7]);
}

#[test]
fn reconcile_with_the_same_composition_changes_nothing() {
    let mut roster = Roster::spawn(&vec![(template("Goblin", 7), 3), (template("Orc", 15), 1)]);
    roster.set_hp("Goblin 2", 2);
    let before = roster.to_session();
    roster.reconcile(&vec![(template("Goblin", 7), 3), (template("Orc", 15), 1)]);
    assert_eq!(roster.live, before.combatants);
    assert_eq!(roster.killed, before.killed_monsters);
}

#[test]
fn reconcile_drops_the_surplus_without_killing() {
    let mut roster = Roster::spawn(&vec![(template("Goblin", 7), 4)]);
    roster.set_hp("Goblin 1", 5);
    roster.reconcile(&vec![(template("Goblin", 7), 2)]);
    assert_eq!(names(&roster.live), vec!["Goblin 1", "Goblin 2"]);
    assert_eq!(hps(&roster.live), vec![5, 7]);
    assert!(roster.killed.is_empty());
}

#[test]
fn reconcile_keeps_the_first_by_name() {
    let mut roster = Roster::spawn(&vec![(template("Goblin", 7), 10)]);
    roster.reconcile(&vec![(template("Goblin", 7), 3)]);
    assert_eq!(names(&roster.live), vec!["Goblin 1", "Goblin 10", "Goblin 2"]);
}

#[test]
fn reconcile_removes_templates_that_are_not_desired() {
    let mut roster = Roster::spawn(&vec![(template("Goblin", 7), 2), (template("Orc", 15), 2)]);
    roster.reconcile(&vec![(template("Orc", 15), 2)]);
    assert_eq!(names(&roster.live), vec!["Orc 1", "Orc 2"]);
    assert!(roster.killed.is_empty());
}

#[test]
fn reconcile_with_nothing_desired_empties_the_live() {
    let mut roster = Roster::spawn(&vec![(template("Goblin", 7), 2)]);
    roster.kill("Goblin 1");
    roster.reconcile(&Vec::new());
    assert!(roster.live.is_empty());
    assert_eq!(names(&roster.killed), vec!["Goblin 1"]);
}

#[test]
fn reconcile_of_an_empty_roster_spawns() {
    let mut roster = Roster::new();
    roster.reconcile(&vec![(template("Goblin", 7), 2), (template("Orc", 15), 1)]);
    assert_eq!(names(&roster.live), vec!["Goblin 1", "Goblin 2", "Orc"]);
    assert_eq!(hps(&roster.live), vec![7, 7, 15]);
    roster.reconcile(&vec![(template("Goblin", 7), 0), (template("Orc", 15), -1)]);
    assert!(roster.live.is_empty());
}

#[test]
fn reconcile_follows_the_order_of_the_desired_list() {
    let mut roster = Roster::spawn(&vec![(template("Goblin", 7), 2), (template("Orc", 15), 1)]);
    roster.reconcile(&vec![(template("Orc", 15), 1), (template("Goblin", 7), 2)]);
    assert_eq!(names(&roster.live), vec!["Orc", "Goblin 1", "Goblin 2"]);
}

#[test]
fn reconcile_numbers_after_a_bare_name() {
    let mut roster = Roster::spawn(&vec![(template("Goblin", 7), 1)]);
    roster.set_hp("Goblin", 2);
    roster.reconcile(&vec![(template("Goblin", 7), 3)]);
    assert_eq!(names(&roster.live), vec!["Goblin", "Goblin 2", "Goblin 3"]);
    assert_eq!(hps(&roster.live), vec![2, 7, 7]);
}

#[test]
fn reconcile_numbers_from_the_highest_ordinal() {
    let mut roster = Roster::spawn(&vec![(template("Goblin", 7), 5)]);
    roster.kill("Goblin 1");
    roster.kill("Goblin 2");
    roster.kill("Goblin 4");
    roster.reconcile(&vec![(template("Goblin", 7), 4)]);
    assert_eq!(names(&roster.live), vec!["Goblin 3", "Goblin 5", "Goblin 6", "Goblin 7"]);
}

#[test]
fn reconcile_new_combatants_take_the_desired_template() {
    let mut roster = Roster::spawn(&vec![(template("Goblin", 7), 1)]);
    roster.reconcile(&vec![(template("Goblin", 9), 2)]);
    assert_eq!(roster.live[0].max_hp, 7);
    assert_eq!(roster.live[0].monster_template.hp, 7);
    assert_eq!(roster.live[1].max_hp, 9);
    assert_eq!(roster.live[1].current_hp, 9);
    assert_eq!(roster.live[1].monster_template.hp, 9);
}

#[test]
fn sorted_group_orders_by_name_and_keeps_equal_names_in_order() {
    let live = vec![
        named("Goblin 2", "Goblin", 1),
        named("Orc", "Orc", 2),
        named("Goblin 10", "Goblin", 3),
        named("Goblin", "Goblin", 4),
        named("Goblin 2", "Goblin", 5),
    ];
    let group = sorted_group(&live, &String::from("Goblin"));
    assert_eq!(names(&group), vec!["Goblin", "Goblin 10", "Goblin 2", "Goblin 2"]);
    assert_eq!(hps(&group), vec![4, 3, 1, 5]);
}

#[test]
fn highest_ordinal_reads_names_of_the_template_only() {
    let live = vec![
        named("Goblin 2", "Goblin", 1),
        named("Orc 9", "Orc", 2),
        named("Goblin 7", "Goblin", 3),
        named("Goblin 99", "Orc", 3),
        named("Boss", "Goblin", 3),
    ];
    assert_eq!(highest_ordinal(&live, &String::from("Goblin")), 7);
    assert_eq!(highest_ordinal(&live, &String::from("Orc")), 9);
    assert_eq!(highest_ordinal(&live, &String::from("Troll")), 0);
    assert_eq!(highest_ordinal(&Vec::new(), &String::from("Goblin")), 0);
}

#[test]
fn reconcile_after_resume_keeps_the_resumed() {
    let mut first = Roster::spawn(&vec![(template("Goblin", 7), 2)]);
    first.set_hp("Goblin 2", 1);
    let session = first.to_session();
    let mut roster = Roster::spawn(&Vec::new());
    roster.resume(Session {
        combatants: session.combatants,
        killed_monsters: session.killed_monsters,
    });
    roster.reconcile(&vec![(template("Goblin", 7), 3)]);
    assert_eq!(names(&roster.live), vec!["Goblin 1", "Goblin 2", "Goblin 3"]);
    assert_eq!(hps(&roster.live), vec![7, 1, 7]);
}

#[test]
fn reconcile_twice_holds_what_reconcile_once_holds() {
    let desired = vec![(template("Goblin", 7), 12), (template("Orc", 15), 1)];
    let mut roster = Roster::spawn(&vec![(template("Goblin", 7), 9), (template("Troll", 60), 2)]);
    roster.set_hp("Goblin 4", 1);
    roster.reconcile(&desired);
    let mut once: Vec<(String, i32)> =
        roster.live.iter().map(|c| (c.instance_name.clone(), c.current_hp)).collect();
    assert_eq!(once.len(), 13);
    roster.reconcile(&desired);
    let mut twice: Vec<(String, i32)> =
        roster.live.iter().map(|c| (c.instance_name.clone(), c.current_hp)).collect();
    once.sort();
    twice.sort();
    assert_eq!(once, twice);
    assert!(once.contains(&(String::from("Goblin 4"), 1)));
    assert!(once.contains(&(String::from("Goblin 12"), 7)));
    assert!(once.contains(&(String::from("Orc"), 15)));
}

#[test]
fn reconcile_reaches_the_desired_numbers() {
    let mut roster = Roster::spawn(&vec![(template("Goblin", 7), 5), (template("Orc", 15), 2)]);
    roster.reconcile(&vec![(template("Orc", 15), 4), (template("Goblin", 7), 3), (template("Bat", 1), 0)]);
    let of = |name: &str| roster.live.iter().filter(|c| c.monster_template.name == name).count();
    assert_eq!(of("Orc"), 4);
    assert_eq!(of("Goblin"), 3);
    assert_eq!(of("Bat"), 0);
    assert_eq!(roster.live.len(), 7);
    let mut seen = names(&roster.live);
    seen.sort();
    seen.dedup();
    assert_eq!(seen.len(), 7);
}
