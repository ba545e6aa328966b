use chrono::Utc;
use rusty_journal::{
    add_task, collect_tasks, complete_task, list_tasks, search_tasks, sort_tasks, ErrorKind,
    Listing, SortOrder, Task, TaskError,
};

fn task(id: usize, text: &str, priority: Option<&str>, category: Option<&str>) -> Task {
    Task {
        id,
        text: String::from(text),
        created_at: 1_700_000_000,
        due_date: None,
        priority: priority.map(String::from),
        category: category.map(String::from),
    }
}

fn texts(tasks: &[Task]) -> Vec<&str> {
    tasks.iter().map(|t| t.text.as_str()).collect()
}

fn shown(listing: &Listing) -> Vec<(usize, &str)> {
    match listing {
        Listing::Empty => panic!("the listing is empty"),
        Listing::Rows(rows) => rows.iter().map(|r| (r.number, r.task.text.as_str())).collect(),
    }
}

fn mixed() -> Vec<Task> {
    vec![
        task(1, "low one", Some("low"), Some("home")),
        task(2, "none one", None, Some("work")),
        task(3, "high one", Some("high"), Some("work")),
        task(4, "medium one", Some("medium"), None),
        task(5, "high two", Some("high"), Some("home")),
        task(6, "odd one", Some("urgent"), Some("work")),
        task(7, "low two", Some("low"), Some("work")),
        task(8, "medium two", Some("medium"), Some("Work")),
    ]
}

#[test]
fn test_collect_tasks() {
    let task = Task {
        id: 1,
        text: String::from("Test Task"),
        created_at: Utc::now().timestamp(),
        due_date: Some((Utc::now() + chrono::Duration::days(7)).timestamp()),
        category: Some(String::from("I don't know")),
        priority: Some(String::from("I don't know either")),
    };
    let tasks = vec![task];

    let mut object = serde_json::Map::new();
    object.insert(String::from("id"), serde_json::Value::from(tasks[0].id));
    object.insert(String::from("text"), serde_json::Value::from(tasks[0].text.clone()));
    object.insert(String::from("created_at"), serde_json::Value::from(tasks[0].created_at));
    object.insert(String::from("due_date"), serde_json::Value::from(tasks[0].due_date));
    object.insert(String::from("priority"), serde_json::Value::from(tasks[0].priority.clone()));
    object.insert(String::from("category"), serde_json::Value::from(tasks[0].category.clone()));
    let content =
        serde_json::to_string_pretty(&serde_json::Value::Array(vec![serde_json::Value::Object(
            object,
        )]))
        .unwrap();

    let parsed: Result<Vec<Task>, String> = serde_json::from_str::<serde_json::Value>(&content)
        .map_err(|e| e.to_string())
        .map(|value| {
            value
                .as_array()
                .unwrap()
                .iter()
                .map(|entry| Task {
                    id: entry["id"].as_u64().unwrap() as usize,
                    text: String::from(entry["text"].as_str().unwrap()),
                    created_at: entry["created_at"].as_i64().unwrap(),
                    due_date: entry["due_date"].as_i64(),
                    priority: entry["priority"].as_str().map(String::from),
                    category: entry["category"].as_str().map(String::from),
                })
                .collect()
        });
    let collected_task = collect_tasks(&content, parsed).unwrap();

    assert_eq!(collected_task[0], tasks[0]);
    assert_eq!(collected_task.len(), 1);
    assert_eq!(collected_task[0].text, tasks[0].text);
    assert_eq!(collected_task[0].created_at, tasks[0].created_at);
    assert_eq!(collected_task[0].due_date, tasks[0].due_date);
    assert_eq!(collected_task[0].category, tasks[0].category);
    assert_eq!(collected_task[0].priority, tasks[0].priority);
}

#[test]
fn test_add_task() {
    let tasks = collect_tasks("[]", Ok(Vec::new())).unwrap();

    let new_task = Task {
        id: 0,
        text: String::from("Test Task"),
        created_at: Utc::now().timestamp(),
        due_date: Some((Utc::now() + chrono::Duration::days(7)).timestamp()),
        category: Some(String::from("Test Category")),
        priority: Some(String::from("high")),
    };

    let tasks = add_task(tasks, new_task.clone());

    assert_eq!(tasks.len(), 1);
    assert_eq!(tasks[0].text, new_task.text);
    assert_eq!(tasks[0].category, new_task.category);
    assert_eq!(tasks[0].priority, new_task.priority);
}

#[test]
fn test_complete_task() {
    let task1 = Task {
        id: 1,
        text: String::from("Task 1"),
        created_at: Utc::now().timestamp(),
        due_date: Some((Utc::now() + chrono::Duration::days(7)).timestamp()),
        category: Some(String::from("Category 1")),
        priority: Some(String::from("high")),
    };
    let task2 = Task {
        id: 2,
        text: String::from("Task 2"),
        created_at: Utc::now().timestamp(),
        due_date: Some((Utc::now() + chrono::Duration::days(7)).timestamp()),
        category: Some(String::from("Category 2")),
        priority: Some(String::from("medium")),
    };
    let tasks = vec![task1.clone(), task2.clone()];

    let remaining_tasks = complete_task(tasks, 1).unwrap();

    assert_eq!(remaining_tasks.len(), 1);
    assert_eq!(remaining_tasks[0].text, task2.text);
    assert_eq!(remaining_tasks[0].category, task2.category);
    assert_eq!(remaining_tasks[0].priority, task2.priority);
}

#[test]
fn test_list_tasks_returns_ok() {
    let task1 = Task {
        id: 1,
        text: String::from("Task 1"),
        created_at: Utc::now().timestamp(),
        due_date: Some((Utc::now() + chrono::Duration::days(7)).timestamp()),
        category: Some(String::from("Category 1")),
        priority: Some(String::from("high")),
    };
    let task2 = Task {
        id: 2,
        text: String::from("Task 2"),
        created_at: Utc::now().timestamp(),
        due_date: Some((Utc::now() + chrono::Duration::days(7)).timestamp()),
        category: Some(String::from("Category 2")),
        priority: Some(String::from("medium")),
    };
    let tasks = vec![task1.clone(), task2.clone()];

    let result = list_tasks(tasks, Some(String::from("Category 1")), String::from("asc"));

    assert_eq!(shown(&result), vec![(1, "Task 1")]);
}

#[test]
fn test_search_tasks_returns_ok() {
    let task1 = Task {
        id: 1,
        text: String::from("Task 1 with keyword"),
        created_at: Utc::now().timestamp(),
        due_date: Some((Utc::now() + chrono::Duration::days(7)).timestamp()),
        category: Some(String::from("Category 1")),
        priority: Some(String::from("high")),
    };
    let task2 = Task {
        id: 2,
        text: String::from("Task 2 without keyword"),
        created_at: Utc::now().timestamp(),
        due_date: Some((Utc::now() + chrono::Duration::days(7)).timestamp()),
        category: Some(String::from("Category 2")),
        priority: Some(String::from("medium")),
    };
    let tasks = vec![task1.clone(), task2.clone()];

    let result = search_tasks(&tasks, String::from("keyword"));

    assert_eq!(result.len(), 2);
    assert_eq!(result[0].text, task1.text);
    assert_eq!(result[1].text, task2.text);
}

#[test]
fn empty_or_blank_content_is_the_empty_journal() {
    for content in ["", " ", "\n", " \t\r\n  "] {
        let refused = collect_tasks(content, Err(String::from("EOF while parsing a value")));
        assert_eq!(refused.unwrap().len(), 0);
        let parsed = collect_tasks(content, Ok(vec![task(1, "a", None, None)]));
        assert_eq!(parsed.unwrap().len(), 0);
    }
}

#[test]
fn content_that_is_no_list_of_tasks_is_a_parse_error() {
    for content in ["[", "{}", "not json", "[{\"id\": 1}]", "\u{a0}", "nul"] {
        match collect_tasks(content, Err(String::from("expected value"))) {
            Err(e) => {
                assert_eq!(e.kind(), ErrorKind::ParseError);
                assert!(matches!(e, TaskError::Malformed(ref fault) if fault == "expected value"));
            }
            Ok(_) => panic!("{content} was accepted"),
        }
    }
}

#[test]
fn parsed_content_is_handed_on_as_it_is() {
    let parsed = vec![task(9, "c", Some("low"), None), task(3, "a", Some("high"), None)];
    let journal = collect_tasks("[{}, {}]", Ok(parsed)).unwrap();
    assert_eq!(texts(&journal), vec!["c", "a"]);
    assert_eq!(journal[0].id, 9);
}

#[test]
fn add_to_the_empty_journal_gives_one_task_with_id_1() {
    let new_task = Task::new_at(String::from("Only"), None, 5).unwrap();
    let journal = add_task(Vec::new(), new_task);

    assert_eq!(journal.len(), 1);
    assert_eq!(journal[0].id, 1);
    assert_eq!(journal[0].text, "Only");
    assert_eq!(journal[0].created_at, 5);
}

#[test]
fn add_gives_the_new_length_as_id_and_orders_by_rank() {
    let journal = vec![
        task(1, "high one", Some("high"), None),
        task(2, "low one", Some("low"), None),
        task(3, "none one", None, None),
    ];
    let journal = add_task(journal, task(0, "medium one", Some("medium"), Some("work")));

    assert_eq!(texts(&journal), vec!["high one", "medium one", "low one", "none one"]);
    assert_eq!(journal[1].id, 4);
    assert_eq!(journal[1].category, Some(String::from("work")));
    assert_eq!(journal.iter().map(|t| t.id).collect::<Vec<_>>(), vec![1, 4, 2, 3]);

    let journal = add_task(journal, task(77, "high two", Some("high"), None));
    assert_eq!(
        texts(&journal),
        vec!["high one", "high two", "medium one", "low one", "none one"]
    );
    assert_eq!(journal[1].id, 5);
}

#[test]
fn add_orders_a_journal_that_was_not_in_order() {
    let journal = add_task(mixed(), task(0, "none two", None, None));

    assert_eq!(
        texts(&journal),
        vec![
            "high one", "high two", "medium one", "medium two", "low one", "low two", "none one",
            "odd one", "none two"
        ]
    );
    assert_eq!(journal[8].id, 9);
}

#[test]
fn ids_are_not_kept_apart_after_a_removal() {
    let journal = add_task(Vec::new(), task(0, "a", None, None));
    let journal = add_task(journal, task(0, "b", None, None));
    let journal = complete_task(journal, 1).unwrap();
    let journal = add_task(journal, task(0, "c", None, None));

    assert_eq!(texts(&journal), vec!["b", "c"]);
    assert_eq!(journal.iter().map(|t| t.id).collect::<Vec<_>>(), vec![2, 2]);
}

#[test]
fn complete_refuses_position_zero_and_positions_past_the_end() {
    for position in [0, 9, 10, usize::MAX] {
        match complete_task(mixed(), position) {
            Err(e) => {
                assert!(matches!(e, TaskError::InvalidPosition));
                assert_eq!(e.kind(), ErrorKind::InvalidInput);
            }
            Ok(_) => panic!("position {position} was accepted"),
        }
    }
    assert!(matches!(complete_task(Vec::new(), 0), Err(TaskError::InvalidPosition)));
    assert!(matches!(complete_task(Vec::new(), 1), Err(TaskError::InvalidPosition)));
}

#[test]
fn complete_removes_the_task_at_the_position_and_orders_the_rest() {
    for position in 1..=8 {
        let before = mixed();
        let removed = before[position - 1].text.clone();
        let after = complete_task(before, position).unwrap();

        assert_eq!(after.len(), 7);
        assert!(!texts(&after).contains(&removed.as_str()));
        let ranks: Vec<u8> = after.iter().map(|t| t.priority_order()).collect();
        assert!(ranks.windows(2).all(|pair| pair[0] <= pair[1]));
    }
    let after = complete_task(mixed(), 3).unwrap();
    assert_eq!(
        texts(&after),
        vec!["high two", "medium one", "medium two", "low one", "low two", "none one", "odd one"]
    );
    let last = complete_task(vec![task(1, "a", None, None)], 1).unwrap();
    assert_eq!(last.len(), 0);
}

#[test]
fn sort_is_stable_in_both_directions() {
    let ascending = sort_tasks(mixed(), SortOrder::Ascending);
    assert_eq!(
        texts(&ascending),
        vec![
            "high one", "high two", "medium one", "medium two", "low one", "low two", "none one",
            "odd one"
        ]
    );
    let descending = sort_tasks(mixed(), SortOrder::Descending);
    assert_eq!(
        texts(&descending),
        vec![
            "none one", "odd one", "low one", "low two", "medium one", "medium two", "high one",
            "high two"
        ]
    );
    assert_eq!(sort_tasks(Vec::new(), SortOrder::Descending).len(), 0);
}

#[test]
fn sort_agrees_with_a_stable_sort_by_rank() {
    let mut expected = mixed();
    expected.sort_by_key(|t| t.priority_order());
    assert_eq!(texts(&sort_tasks(mixed(), SortOrder::Ascending)), texts(&expected));

    let mut expected = mixed();
    expected.sort_by(|a, b| b.priority_order().cmp(&a.priority_order()));
    assert_eq!(texts(&sort_tasks(mixed(), SortOrder::Descending)), texts(&expected));
}

#[test]
fn sort_order_names() {
    assert_eq!(SortOrder::from_name("desc"), SortOrder::Descending);
    assert_eq!(SortOrder::from_name("asc"), SortOrder::Ascending);
    assert_eq!(SortOrder::from_name("DESC"), SortOrder::Ascending);
    assert_eq!(SortOrder::from_name(""), SortOrder::Ascending);
    assert_eq!(SortOrder::from_name("descending"), SortOrder::Ascending);
}

#[test]
fn list_of_the_empty_journal_is_empty() {
    assert!(matches!(list_tasks(Vec::new(), None, String::from("asc")), Listing::Empty));
    assert!(matches!(
        list_tasks(Vec::new(), Some(String::from("work")), String::from("desc")),
        Listing::Empty
    ));
}

#[test]
fn list_without_category_shows_all_tasks_in_order() {
    let listing = list_tasks(mixed(), None, String::from("asc"));
    assert_eq!(
        shown(&listing),
        vec![
            (1, "high one"),
            (2, "high two"),
            (3, "medium one"),
            (4, "medium two"),
            (5, "low one"),
            (6, "low two"),
            (7, "none one"),
            (8, "odd one")
        ]
    );
    let listing = list_tasks(mixed(), None, String::from("desc"));
    assert_eq!(
        shown(&listing),
        vec![
            (1, "none one"),
            (2, "odd one"),
            (3, "low one"),
            (4, "low two"),
            (5, "medium one"),
            (6, "medium two"),
            (7, "high one"),
            (8, "high two")
        ]
    );
}

#[test]
fn list_with_category_shows_exactly_that_category() {
    let listing = list_tasks(mixed(), Some(String::from("work")), String::from("asc"));
    assert_eq!(
        shown(&listing),
        vec![(1, "high one"), (2, "low two"), (3, "none one"), (4, "odd one")]
    );
    let listing = list_tasks(mixed(), Some(String::from("work")), String::from("desc"));
    assert_eq!(
        shown(&listing),
        vec![(1, "none one"), (2, "odd one"), (3, "low two"), (4, "high one")]
    );
    let listing = list_tasks(mixed(), Some(String::from("home")), String::from("anything"));
    assert_eq!(shown(&listing), vec![(1, "high two"), (2, "low one")]);
    let listing = list_tasks(mixed(), Some(String::from("Work")), String::from("asc"));
    assert_eq!(shown(&listing), vec![(1, "medium two")]);
}

#[test]
fn list_with_a_category_that_no_task_has_shows_no_row() {
    let listing = list_tasks(mixed(), Some(String::from("garden")), String::from("asc"));
    assert_eq!(shown(&listing), Vec::<(usize, &str)>::new());
    let listing = list_tasks(mixed(), Some(String::from("")), String::from("asc"));
    assert_eq!(shown(&listing), Vec::<(usize, &str)>::new());
}

#[test]
fn search_finds_the_tasks_that_hold_the_keyword_in_journal_order() {
    let journal = mixed();
    assert_eq!(
        search_tasks(&journal, String::from("one")).iter().map(|t| t.id).collect::<Vec<_>>(),
        vec![1, 2, 3, 4, 6]
    );
    assert_eq!(
        search_tasks(&journal, String::from("low")).iter().map(|t| t.text.as_str()).collect::<Vec<_>>(),
        vec!["low one", "low two"]
    );
    assert_eq!(search_tasks(&journal, String::from("high two")).len(), 1);
    assert_eq!(search_tasks(&journal, String::from("")).len(), 8);
}

#[test]
fn search_is_case_sensitive_and_goes_by_the_text_alone() {
    let journal = mixed();
    assert_eq!(search_tasks(&journal, String::from("LOW")).len(), 0);
    assert_eq!(search_tasks(&journal, String::from("work")).len(), 0);
    assert_eq!(search_tasks(&journal, String::from("urgent")).len(), 0);
}

#[test]
fn search_without_match_is_empty_and_no_error() {
    let journal = mixed();
    assert_eq!(search_tasks(&journal, String::from("keyword")).len(), 0);
    assert_eq!(search_tasks(&journal, String::from("low one and more")).len(), 0);
    assert_eq!(search_tasks(&Vec::new(), String::from("one")).len(), 0);
    assert_eq!(search_tasks(&Vec::new(), String::from("")).len(), 0);
}

#[test]
fn search_matches_whole_characters() {
    let journal = vec![
        task(1, "café au lait", None, None),
        task(2, "cafe", None, None),
        task(3, "日本語のタスク", None, None),
    ];
    assert_eq!(search_tasks(&journal, String::from("é")).len(), 1);
    assert_eq!(search_tasks(&journal, String::from("caf")).len(), 2);
    assert_eq!(search_tasks(&journal, String::from("本語")).iter().map(|t| t.id).collect::<Vec<_>>(), vec![3]);
    assert_eq!(search_tasks(&journal, String::from("タスク!")).len(), 0);
}

#[test]
fn a_session_of_adding_listing_searching_and_completing() {
    let mut journal = collect_tasks("", Err(String::from("EOF while parsing a value"))).unwrap();
    for (text, due, priority, category) in [
        ("Water the plants", None, "low", "home"),
        ("File the report", Some("2024-03-01"), "high", "work"),
        ("Call the plumber", Some("2024-02-29"), "medium", "home"),
        ("Book the flights", None, "high", "travel"),
    ] {
        let mut new_task = Task::new(String::from(text), due.map(String::from)).unwrap();
        new_task.priority = Some(String::from(priority));
        new_task.category = Some(String::from(category));
        journal = add_task(journal, new_task);
    }
    assert_eq!(
        texts(&journal),
        vec!["File the report", "Book the flights", "Call the plumber", "Water the plants"]
    );
    assert_eq!(journal.iter().map(|t| t.id).collect::<Vec<_>>(), vec![2, 4, 3, 1]);
    assert_eq!(journal[0].due_date, Some(1_709_251_200));
    assert_eq!(journal[2].due_date, Some(1_709_164_800));

    let refused = Task::new(String::from("Buy a gift"), Some(String::from("2024-02-30")));
    assert_eq!(refused.unwrap_err(), TaskError::InvalidDate);
    let refused = Task::new(String::from("Buy a gift"), Some(String::from("next week")));
    assert_eq!(refused.unwrap_err(), TaskError::InvalidDateFormat);

    let listing = list_tasks(journal.clone(), Some(String::from("home")), String::from("desc"));
    assert_eq!(shown(&listing), vec![(1, "Water the plants"), (2, "Call the plumber")]);

    let found = search_tasks(&journal, String::from("the "));
    assert_eq!(found.len(), 4);
    let found = search_tasks(&journal, String::from("plumber"));
    assert_eq!(found.iter().map(|t| t.id).collect::<Vec<_>>(), vec![3]);

    assert_eq!(complete_task(journal.clone(), 5).unwrap_err(), TaskError::InvalidPosition);
    let journal = complete_task(journal, 2).unwrap();
    assert_eq!(
        texts(&journal),
        vec!["File the report", "Call the plumber", "Water the plants"]
    );
    let journal = complete_task(journal, 1).unwrap();
    let journal = complete_task(journal, 2).unwrap();
    let journal = complete_task(journal, 1).unwrap();
    assert!(journal.is_empty());
    assert!(matches!(list_tasks(journal, None, String::from("asc")), Listing::Empty));
}
