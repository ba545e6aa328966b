use rusty_journal::prompt::{accept_label, category_answer, priority_answer};
use rusty_journal::Priority;

#[test]
fn answers_are_trimmed_and_lowered() {
    assert_eq!(priority_answer("high\n"), Some(String::from("high")));
    assert_eq!(priority_answer("  Medium \r\n"), Some(String::from("medium")));
    assert_eq!(priority_answer("LOW"), Some(String::from("low")));
    assert_eq!(priority_answer("\tHiGh\u{a0}"), Some(String::from("high")));
}

#[test]
fn other_answers_are_asked_again() {
    for answer in ["", "\n", "urgent", "hi gh", "high!", "lo", "mediumm", "1", "none"] {
        assert_eq!(priority_answer(answer), None, "{answer}");
    }
}

#[test]
fn labels_are_accepted_only_as_written() {
    assert_eq!(accept_label(String::from("low")), Some(String::from("low")));
    assert_eq!(accept_label(String::from("medium")), Some(String::from("medium")));
    assert_eq!(accept_label(String::from("high")), Some(String::from("high")));
    assert_eq!(accept_label(String::from("High")), None);
    assert_eq!(accept_label(String::from(" high")), None);
    assert_eq!(accept_label(String::from("")), None);
}

#[test]
fn labels_and_ranks() {
    assert_eq!(Priority::from_label(Some("high")), Priority::High);
    assert_eq!(Priority::from_label(Some("medium")), Priority::Medium);
    assert_eq!(Priority::from_label(Some("low")), Priority::Low);
    assert_eq!(Priority::from_label(Some("Low")), Priority::Unset);
    assert_eq!(Priority::from_label(None), Priority::Unset);
    assert_eq!(Priority::High.rank(), 1);
    assert_eq!(Priority::Medium.rank(), 2);
    assert_eq!(Priority::Low.rank(), 3);
    assert_eq!(Priority::Unset.rank(), 4);
}

#[test]
fn categories_are_trimmed_and_kept_as_written() {
    assert_eq!(category_answer("Work\n"), "Work");
    assert_eq!(category_answer("  at home \r\n"), "at home");
    assert_eq!(category_answer("\n"), "");
    assert_eq!(category_answer(""), "");
    assert_eq!(category_answer("\u{2003}Garten\u{a0}"), "Garten");
}
