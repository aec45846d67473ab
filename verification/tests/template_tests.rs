use mass_combat::template::{
    ability_from_name, ability_name, add_attack_to_monster, delete_attack_from_monster, Ability,
    Attack, Monster,
};

fn attack(name: &str, dice: i32) -> Attack {
    Attack {
        attack_name: String::from(name),
        ability_used: Ability::Str,
        damage_die: 8,
        num_dice: dice,
        num_attacks: 1,
        is_saving_throw: false,
    }
}

fn ogre() -> Monster {
    Monster {
        name: String::from("Ogre"),
        hp: 59,
        ac: 11,
        pb: 2,
        str_mod: 4,
        dex_mod: -1,
        con_mod: 3,
        int_mod: -3,
        wis_mod: -2,
        cha_mod: -4,
        exp: 450,
        attacks: vec![attack("Club", 2)],
    }
}

#[test]
fn ability_modifier_picks_the_field() {
    let m = ogre();
    assert_eq!(m.ability_modifier(Ability::Str), 4);
    assert_eq!(m.ability_modifier(Ability::Dex), -1);
    assert_eq!(m.ability_modifier(Ability::Con), 3);
    assert_eq!(m.ability_modifier(Ability::Int), -3);
    assert_eq!(m.ability_modifier(Ability::Wis), -2);
    assert_eq!(m.ability_modifier(Ability::Cha), -4);
}

#[test]
fn add_attack_appends() {
    let mut m = ogre();
    add_attack_to_monster(&mut m, attack("Javelin", 2));
    add_attack_to_monster(&mut m, attack("Club", 3));
    let mut expected = ogre();
    expected.attacks = vec![attack("Club", 2), attack("Javelin", 2), attack("Club", 3)];
    assert_eq!(m, expected);
}

#[test]
fn delete_attack_removes_every_attack_of_that_name() {
    let mut m = ogre();
    add_attack_to_monster(&mut m, attack("Javelin", 2));
    add_attack_to_monster(&mut m, attack("Club", 3));
    add_attack_to_monster(&mut m, attack("Rock", 1));
    delete_attack_from_monster(&mut m, "Club");
    let mut expected = ogre();
    expected.attacks = vec![attack("Javelin", 2), attack("Rock", 1)];
    assert_eq!(m, expected);
}

#[test]
fn delete_attack_of_an_unknown_name_changes_nothing() {
    let mut m = ogre();
    delete_attack_from_monster(&mut m, "club");
    assert_eq!(m, ogre());
    delete_attack_from_monster(&mut m, "Club");
    assert!(m.attacks.is_empty());
    delete_attack_from_monster(&mut m, "Club");
    assert!(m.attacks.is_empty());
}

#[test]
fn clone_copies_every_field() {
    let m = ogre();
    assert_eq!(m.clone(), m);
    let a = attack("Bite", 1);
    assert_eq!(a.clone(), a);
}

#[test]
fn ability_names_are_short() {
    assert_eq!(ability_name(Ability::Str), "str");
    assert_eq!(ability_name(Ability::Dex), "dex");
    assert_eq!(ability_name(Ability::Con), "con");
    assert_eq!(ability_name(Ability::Int), "int");
    assert_eq!(ability_name(Ability::Wis), "wis");
    assert_eq!(ability_name(Ability::Cha), "cha");
}

#[test]
fn ability_from_name_reads_the_six_names() {
    for a in [Ability::Str, Ability::Dex, Ability::Con, Ability::Int, Ability::Wis, Ability::Cha] {
        assert_eq!(ability_from_name(ability_name(a)), Some(a));
    }
    assert_eq!(ability_from_name(""), None);
    assert_eq!(ability_from_name("STR"), None);
    assert_eq!(ability_from_name("str "), None);
    assert_eq!(ability_from_name("luck"), None);
}
