use std::path::PathBuf;

use rusty_journal::{Action, CommandLineArgs};

#[test]
fn the_named_journal_file_is_used() {
    let args = CommandLineArgs {
        action: Action::Done { position: 2 },
        journal_file: Some(PathBuf::from("named.json")),
    };
    let (action, path) = args.into_request(Some(PathBuf::from("default.json"))).unwrap();

    assert_eq!(path, PathBuf::from("named.json"));
    assert!(matches!(action, Action::Done { position: 2 }));
}

#[test]
fn the_default_journal_file_is_used_where_none_is_named() {
    let args = CommandLineArgs {
        action: Action::Search { keyword: String::from("milk") },
        journal_file: None,
    };
    let (action, path) = args.into_request(Some(PathBuf::from("default.json"))).unwrap();

    assert_eq!(path, PathBuf::from("default.json"));
    assert!(matches!(action, Action::Search { ref keyword } if keyword == "milk"));
}

#[test]
fn without_any_journal_file_there_is_no_request() {
    let args = CommandLineArgs {
        action: Action::List { category: None, sort_order: String::from("asc") },
        journal_file: None,
    };
    assert!(args.into_request(None).is_none());

    let args = CommandLineArgs {
        action: Action::Add { task: String::from("milk"), due_date: None },
        journal_file: Some(PathBuf::from("named.json")),
    };
    assert!(args.into_request(None).is_some());
}
