use mass_combat::text::{
    digit_value, has_ordinal, int_string, make_numbered_name, name_le, push_decimal, push_int,
    read_ordinal, MAX_ORDINAL,
};

#[test]
fn int_string_writes_decimal_numerals() {
    assert_eq!(int_string(0), "0");
    assert_eq!(int_string(7), "7");
    assert_eq!(int_string(10), "10");
    assert_eq!(int_string(-3), "-3");
    assert_eq!(int_string(1234567890), "1234567890");
    assert_eq!(int_string(i128::MAX), i128::MAX.to_string());
    assert_eq!(int_string(i128::MIN), i128::MIN.to_string());
}

#[test]
fn push_decimal_and_push_int_append() {
    let mut s = String::from("n=");
    push_decimal(&mut s, 405);
    assert_eq!(s, "n=405");
    push_int(&mut s, -12);
    assert_eq!(s, "n=405-12");
    push_decimal(&mut s, u128::MAX);
    assert_eq!(s, format!("n=405-12{}", u128::MAX));
}

#[test]
fn numbered_names_have_one_space() {
    assert_eq!(make_numbered_name(&String::from("Goblin"), 1), "Goblin 1");
    assert_eq!(make_numbered_name(&String::from("Dire Wolf"), 23), "Dire Wolf 23");
    assert_eq!(make_numbered_name(&String::new(), 0), " 0");
}

#[test]
fn read_ordinal_reads_what_was_written() {
    assert_eq!(read_ordinal("Goblin", "Goblin"), 1);
    assert_eq!(read_ordinal("Goblin 1", "Goblin"), 1);
    assert_eq!(read_ordinal("Goblin 12", "Goblin"), 12);
    assert_eq!(read_ordinal("Goblin 007", "Goblin"), 7);
    assert_eq!(read_ordinal("Goblin 0", "Goblin"), 0);
    assert_eq!(read_ordinal("Dire Wolf 3", "Dire Wolf"), 3);
    assert_eq!(read_ordinal("Ogre \u{e9}lite 3", "Ogre \u{e9}lite"), 3);
}

#[test]
fn read_ordinal_gives_zero_for_other_names() {
    assert_eq!(read_ordinal("Goblin ", "Goblin"), 0);
    assert_eq!(read_ordinal("Goblin x", "Goblin"), 0);
    assert_eq!(read_ordinal("Goblin 1x", "Goblin"), 0);
    assert_eq!(read_ordinal("Goblin-1", "Goblin"), 0);
    assert_eq!(read_ordinal("Goblin  1", "Goblin"), 0);
    assert_eq!(read_ordinal("Goblins 1", "Goblin"), 0);
    assert_eq!(read_ordinal("Orc 1", "Goblin"), 0);
    assert_eq!(read_ordinal("Gob", "Goblin"), 0);
    assert_eq!(read_ordinal("", "Goblin"), 0);
    assert_eq!(read_ordinal("Goblin -1", "Goblin"), 0);
}

#[test]
fn read_ordinal_stops_at_the_largest_ordinal() {
    assert_eq!(MAX_ORDINAL, 4294967295);
    assert_eq!(read_ordinal("Goblin 4294967295", "Goblin"), 4294967295);
    assert_eq!(read_ordinal("Goblin 4294967296", "Goblin"), 0);
    assert_eq!(read_ordinal("Goblin 99999999999999999999999999999999999999999", "Goblin"), 0);
}

#[test]
fn name_le_orders_character_by_character() {
    assert!(name_le("", ""));
    assert!(name_le("", "a"));
    assert!(!name_le("a", ""));
    assert!(name_le("Goblin", "Goblin"));
    assert!(name_le("Goblin", "Goblin 1"));
    assert!(!name_le("Goblin 1", "Goblin"));
    assert!(name_le("Goblin 10", "Goblin 2"));
    assert!(!name_le("Goblin 2", "Goblin 10"));
    assert!(name_le("Goblin", "Orc"));
    assert!(!name_le("Orc", "Goblin"));
    assert!(name_le("Z", "a"));
    assert!(name_le("z", "\u{e9}"));
}

#[test]
fn name_le_agrees_with_the_order_of_strings() {
    let samples = ["", "a", "ab", "b", "Goblin 1", "Goblin 10", "Goblin 2", "\u{e9}", "z\u{1F600}", "z"];
    for a in samples {
        for b in samples {
            assert_eq!(name_le(a, b), a <= b);
        }
    }
}

#[test]
fn digit_value_reads_the_ten_numerals() {
    for (d, c) in "0123456789".chars().enumerate() {
        assert_eq!(digit_value(c), Some(d as i64));
    }
    assert_eq!(digit_value('a'), None);
    assert_eq!(digit_value(' '), None);
    assert_eq!(digit_value('\u{663}'), None);
}

#[test]
fn has_ordinal_tells_numbered_names() {
    assert!(has_ordinal("Goblin 1"));
    assert!(has_ordinal("Goblin 0"));
    assert!(has_ordinal("Goblin 12"));
    assert!(has_ordinal("Dire Wolf 3"));
    assert!(has_ordinal(" 7"));
    assert!(has_ordinal("Goblin 1 2"));
    assert!(has_ordinal(&make_numbered_name(&String::from("Ogre"), 340282366920938463463374607431768211455)));
}

#[test]
fn has_ordinal_is_false_of_other_names() {
    assert!(!has_ordinal(""));
    assert!(!has_ordinal("Goblin"));
    assert!(!has_ordinal("Goblin "));
    assert!(!has_ordinal("Goblin1"));
    assert!(!has_ordinal("42"));
    assert!(!has_ordinal("Goblin 01"));
    assert!(!has_ordinal("Goblin 00"));
    assert!(!has_ordinal("Goblin 1 "));
    assert!(!has_ordinal("Goblin 1a"));
    assert!(!has_ordinal("Goblin -1"));
    assert!(!has_ordinal("Dire Wolf"));
}
