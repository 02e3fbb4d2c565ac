use orch::mailbox::{drain_entries, sort_entries, stamp_to_name, MailEntry, Mailbox};

fn entry(name: &str, body: &str) -> MailEntry {
    MailEntry { name: name.chars().collect(), body: String::from(body) }
}

#[test]
fn drain_of_no_entries_is_nothing() {
    assert_eq!(drain_entries(Vec::new()), None);
}

#[test]
fn fresh_mailbox_drains_to_nothing() {
    let mut m = Mailbox::new();
    assert_eq!(m.drain(), None);
}

#[test]
fn two_messages_drain_in_enqueue_order() {
    let mut m = Mailbox::new();
    m.enqueue(String::from("please close task x"));
    m.enqueue(String::from("also check task y"));
    assert_eq!(m.drain(), Some(String::from("please close task x\nalso check task y")));
}

#[test]
fn drain_after_drain_is_nothing() {
    let mut m = Mailbox::new();
    m.enqueue(String::from("one"));
    m.enqueue(String::from("two"));
    assert_eq!(m.drain(), Some(String::from("one\ntwo")));
    assert_eq!(m.drain(), None);
}

#[test]
fn enqueue_after_drain_keeps_going() {
    let mut m = Mailbox::new();
    m.enqueue(String::from("first"));
    assert_eq!(m.drain(), Some(String::from("first")));
    m.enqueue(String::from("second"));
    assert_eq!(m.drain(), Some(String::from("second")));
}

#[test]
fn whitespace_only_bodies_are_discarded() {
    let mut m = Mailbox::new();
    m.enqueue(String::from("   \t\n"));
    m.enqueue(String::from("real message"));
    m.enqueue(String::from(""));
    assert_eq!(m.drain(), Some(String::from("real message")));
}

#[test]
fn all_blank_bodies_drain_to_nothing() {
    let mut m = Mailbox::new();
    m.enqueue(String::from("  "));
    m.enqueue(String::from("\t"));
    assert_eq!(m.drain(), None);
}

#[test]
fn drain_sorts_entries_by_name() {
    let entries = vec![
        entry("00000000000000000002", "late"),
        entry("00000000000000000000", "early"),
        entry("00000000000000000001", "middle"),
    ];
    assert_eq!(drain_entries(entries), Some(String::from("early\nmiddle\nlate")));
}

#[test]
fn sort_entries_orders_lexically() {
    let sorted = sort_entries(vec![entry("b", "2"), entry("a", "1"), entry("c", "3")]);
    let names: Vec<String> = sorted.iter().map(|e| e.name.iter().collect()).collect();
    assert_eq!(names, vec!["a", "b", "c"]);
}

#[test]
fn stamp_names_are_fixed_width_decimal() {
    let zero: String = stamp_to_name(0).into_iter().collect();
    assert_eq!(zero, "00000000000000000000");
    let n: String = stamp_to_name(42).into_iter().collect();
    assert_eq!(n, "00000000000000000042");
}

#[test]
fn stamp_names_grow_with_the_stamp() {
    let a: String = stamp_to_name(99).into_iter().collect();
    let b: String = stamp_to_name(100).into_iter().collect();
    assert!(a < b);
}
