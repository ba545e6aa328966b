use rusty_journal::text::{chars_of, contains_chars, same_text, text_contains};

#[test]
fn same_text_compares_character_for_character() {
    assert!(same_text("", ""));
    assert!(same_text("high", "high"));
    assert!(!same_text("high", "High"));
    assert!(!same_text("high", "hig"));
    assert!(!same_text("hig", "high"));
    assert!(same_text("naïve", "naïve"));
    assert!(!same_text("naïve", "naive"));
}

#[test]
fn chars_of_gives_the_characters() {
    assert_eq!(chars_of("aé日"), vec!['a', 'é', '日']);
    assert_eq!(chars_of(""), Vec::<char>::new());
}

#[test]
fn text_contains_agrees_with_std() {
    let texts = ["", "a", "ab", "aab", "abab", "banana", "Task 1 with keyword", "ééé", "aéa"];
    let keywords = ["", "a", "b", "ab", "ba", "ana", "nan", "keyword", "é", "éé", "aé", "x", "bananas"];
    for text in texts {
        for keyword in keywords {
            assert_eq!(text_contains(text, keyword), text.contains(keyword), "{text} {keyword}");
        }
    }
}

#[test]
fn the_keyword_may_stand_at_either_end() {
    let text = chars_of("keyword in the middle of a keyword");
    assert!(contains_chars(&text, &chars_of("keyword in")));
    assert!(contains_chars(&text, &chars_of("a keyword")));
    assert!(contains_chars(&text, &text));
    assert!(!contains_chars(&text, &chars_of("a keyword ")));
    assert!(!contains_chars(&chars_of(""), &chars_of("a")));
    assert!(contains_chars(&chars_of(""), &chars_of("")));
}
