use mass_combat::dice::{
    damage_result, die_from_text, die_to_text, roll_damage, roll_dice, roll_die,
};

#[test]
fn roll_dice_gives_as_many_as_asked_within_the_die() {
    let rolls = roll_dice(1000, 6);
    assert_eq!(rolls.len(), 1000);
    assert!(rolls.iter().all(|r| 1 <= *r && *r <= 6));
}

#[test]
fn roll_dice_does_not_always_show_the_highest() {
    let rolls = roll_dice(1000, 6);
    assert!(rolls.iter().any(|r| *r != 6));
    assert!(rolls.iter().any(|r| *r != rolls[0]));
}

#[test]
fn roll_dice_of_none_or_less_is_empty() {
    assert!(roll_dice(0, 6).is_empty());
    assert!(roll_dice(-4, 6).is_empty());
}

#[test]
fn a_die_of_less_than_one_side_shows_one() {
    assert_eq!(roll_dice(3, 0), vec![1, 1, 1]);
    assert_eq!(roll_dice(2, -8), vec![1, 1]);
    assert_eq!(roll_dice(2, 1), vec![1, 1]);
}

#[test]
fn damage_result_sums_and_writes_the_formula() {
    assert_eq!(damage_result(&vec![4, 2], 3), (9, String::from("4 + 2 + 3 = 9")));
    assert_eq!(damage_result(&vec![6], 2), (8, String::from("6 + 2 = 8")));
    assert_eq!(damage_result(&vec![1, 1, 1], 1), (4, String::from("1 + 1 + 1 + 1 = 4")));
}

#[test]
fn damage_result_hides_a_modifier_of_zero_behind_dice() {
    assert_eq!(damage_result(&vec![4, 2], 0), (6, String::from("4 + 2 = 6")));
    assert_eq!(damage_result(&vec![5], 0), (5, String::from("5 = 5")));
}

#[test]
fn damage_result_shows_the_modifier_where_nothing_was_rolled() {
    assert_eq!(damage_result(&Vec::new(), 0), (0, String::from("0 = 0")));
    assert_eq!(damage_result(&Vec::new(), 3), (3, String::from("3 = 3")));
    assert_eq!(damage_result(&Vec::new(), -2), (-2, String::from("-2 = -2")));
}

#[test]
fn damage_result_writes_a_negative_modifier() {
    assert_eq!(damage_result(&vec![4], -1), (3, String::from("4 + -1 = 3")));
    assert_eq!(damage_result(&vec![1], -3), (-2, String::from("1 + -3 = -2")));
}

#[test]
fn damage_result_does_not_overflow() {
    let (total, formula) = damage_result(&vec![i32::MAX, i32::MAX], i32::MAX);
    assert_eq!(total, 3 * (i32::MAX as i128));
    assert_eq!(formula, "2147483647 + 2147483647 + 2147483647 = 6442450941");
}

#[test]
fn roll_damage_of_two_six_sided_dice_and_three() {
    for _ in 0..500 {
        let (total, formula) = roll_damage(2, 6, 3);
        assert!(5 <= total && total <= 15);
        let parts: Vec<&str> = formula.split(" = ").collect();
        assert_eq!(parts.len(), 2);
        assert_eq!(parts[1], total.to_string());
        let terms: Vec<&str> = parts[0].split(" + ").collect();
        assert_eq!(terms.len(), 3);
        let first: i128 = terms[0].parse().unwrap();
        let second: i128 = terms[1].parse().unwrap();
        assert!(1 <= first && first <= 6);
        assert!(1 <= second && second <= 6);
        assert_eq!(terms[2], "3");
        assert_eq!(first + second + 3, total);
    }
}

#[test]
fn roll_damage_without_dice_is_the_modifier() {
    assert_eq!(roll_damage(0, 6, 4), (4, String::from("4 = 4")));
    assert_eq!(roll_damage(-1, 6, 0), (0, String::from("0 = 0")));
}

#[test]
fn die_from_text_reads_the_size() {
    assert_eq!(die_from_text("d6"), 6);
    assert_eq!(die_from_text("d10"), 10);
    assert_eq!(die_from_text("d100"), 100);
    assert_eq!(die_from_text("20"), 20);
    assert_eq!(die_from_text("ddd8"), 8);
    assert_eq!(die_from_text("d007"), 7);
    assert_eq!(die_from_text("d+4"), 4);
    assert_eq!(die_from_text("d-4"), -4);
    assert_eq!(die_from_text("d0"), 0);
    assert_eq!(die_from_text("d2147483647"), 2147483647);
    assert_eq!(die_from_text("d-2147483648"), -2147483648);
}

#[test]
fn die_from_text_gives_one_for_what_is_no_die() {
    assert_eq!(die_from_text(""), 1);
    assert_eq!(die_from_text("d"), 1);
    assert_eq!(die_from_text("dd"), 1);
    assert_eq!(die_from_text("six"), 1);
    assert_eq!(die_from_text("D6"), 1);
    assert_eq!(die_from_text("d6 "), 1);
    assert_eq!(die_from_text(" d6"), 1);
    assert_eq!(die_from_text("d6d"), 1);
    assert_eq!(die_from_text("d+"), 1);
    assert_eq!(die_from_text("d-"), 1);
    assert_eq!(die_from_text("d+-4"), 1);
    assert_eq!(die_from_text("d2147483648"), 1);
    assert_eq!(die_from_text("d-2147483649"), 1);
    assert_eq!(die_from_text("d99999999999999999999999"), 1);
}

#[test]
fn die_from_text_reads_as_the_integer_parser_does() {
    let samples = [
        "d6", "6", "dd12", "d", "", "+", "-", "d+3", "d-3", "d3.5", "d 3", "d0012", "d2147483647",
        "d2147483648", "d-2147483648", "d-2147483649", "x6", "d6x", "d--6", "d\u{663}",
    ];
    for text in samples {
        let expected: i32 = text.trim_start_matches('d').parse().unwrap_or(1);
        assert_eq!(die_from_text(text), expected);
    }
}

#[test]
fn die_to_text_writes_what_is_read_back() {
    assert_eq!(die_to_text(6), "d6");
    assert_eq!(die_to_text(12), "d12");
    assert_eq!(die_to_text(-4), "d-4");
    for die in [1, 4, 6, 8, 10, 12, 20, 100, 0, -1, i32::MAX, i32::MIN] {
        assert_eq!(die_from_text(&die_to_text(die)), die);
    }
}

#[test]
fn roll_die_shows_every_face_in_time() {
    let mut seen = [false; 20];
    for _ in 0..5000 {
        let r = roll_die(20);
        assert!(1 <= r && r <= 20);
        seen[(r - 1) as usize] = true;
    }
    assert!(seen.iter().all(|s| *s));
    assert_eq!(roll_die(1), 1);
    assert_eq!(roll_die(0), 1);
    assert_eq!(roll_die(-3), 1);
}
