use mass_combat::event_log::{EventLog, LOG_CAPACITY};

fn filled(n: usize) -> EventLog {
    let mut log = EventLog::new();
    for i in 0..n {
        log.append(format!("line {}", i + 1));
    }
    log
}

#[test]
fn new_log_is_empty() {
    let log = EventLog::new();
    assert_eq!(log.len(), 0);
    assert!(log.log_tail(10).is_empty());
}

#[test]
fn append_keeps_order() {
    let log = filled(3);
    assert_eq!(log.entries, vec!["line 1", "line 2", "line 3"]);
    assert_eq!(log.len(), 3);
}

#[test]
fn log_holds_fifty_lines() {
    assert_eq!(LOG_CAPACITY, 50);
    let log = filled(50);
    assert_eq!(log.len(), 50);
    assert_eq!(log.entries[0], "line 1");
    assert_eq!(log.entries[49], "line 50");
}

#[test]
fn the_fifty_first_line_drops_the_oldest() {
    let log = filled(51);
    assert_eq!(log.len(), 50);
    for i in 0..50 {
        assert_eq!(log.entries[i], format!("line {}", i + 2));
    }
}

#[test]
fn log_never_exceeds_its_capacity() {
    let mut log = EventLog::new();
    for i in 0..200 {
        log.append(format!("line {}", i + 1));
        assert!(log.len() <= 50);
        assert_eq!(log.len(), std::cmp::min(i + 1, 50));
    }
    assert_eq!(log.entries[0], "line 151");
    assert_eq!(log.entries[49], "line 200");
}

#[test]
fn append_trims_a_log_that_was_filled_from_outside() {
    let mut log = EventLog { entries: (0..60).map(|i| format!("old {}", i)).collect() };
    log.append(String::from("new"));
    assert_eq!(log.len(), 50);
    assert_eq!(log.entries[0], "old 11");
    assert_eq!(log.entries[49], "new");
}

#[test]
fn append_all_appends_in_order() {
    let mut log = filled(49);
    log.append_all(&vec![String::from("a"), String::from("b"), String::from("c")]);
    assert_eq!(log.len(), 50);
    assert_eq!(log.entries[0], "line 3");
    assert_eq!(log.entries[47], "a");
    assert_eq!(log.entries[48], "b");
    assert_eq!(log.entries[49], "c");
    let mut log = filled(2);
    log.append_all(&Vec::new());
    assert_eq!(log.entries, vec!["line 1", "line 2"]);
}

#[test]
fn log_tail_gives_the_most_recent() {
    let log = filled(5);
    assert_eq!(log.log_tail(2), vec!["line 4", "line 5"]);
    assert_eq!(log.log_tail(5), vec!["line 1", "line 2", "line 3", "line 4", "line 5"]);
    assert_eq!(log.log_tail(9).len(), 5);
    assert!(log.log_tail(0).is_empty());
}
