use deck_list_scraper::text::{
    contains_str, first_word, has_token_exec, parse_count, split_nth, starts_with_str, str_eq,
    strip_prefix_str, trim_str,
};

#[test]
fn trim_removes_both_ends() {
    assert_eq!(trim_str("  hello \t\n"), "hello");
    assert_eq!(trim_str("hello"), "hello");
    assert_eq!(trim_str("   "), "");
    assert_eq!(trim_str(""), "");
    assert_eq!(trim_str(" a b "), "a b");
}

#[test]
fn parse_count_exact_values() {
    assert_eq!(parse_count("4"), Some(4));
    assert_eq!(parse_count("60"), Some(60));
    assert_eq!(parse_count("0"), Some(0));
    assert_eq!(parse_count(""), None);
    assert_eq!(parse_count("4x"), None);
    assert_eq!(parse_count(" 4"), None);
    assert_eq!(parse_count("99999999999999999999999999"), None);
}

#[test]
fn token_membership() {
    assert!(has_token_exec("deck-group compact", "deck-group"));
    assert!(has_token_exec("a  b\tc", "b"));
    assert!(!has_token_exec("deck-groups", "deck-group"));
    assert!(!has_token_exec("deck group", "deck-group"));
    assert!(!has_token_exec("", "x"));
    assert!(!has_token_exec("abc", ""));
}

#[test]
fn substring_search() {
    assert!(contains_str("page says no result found here", "no result found"));
    assert!(!contains_str("all good", "no result found"));
    assert!(starts_with_str("deck.php?id=1", "deck.php"));
    assert!(!starts_with_str("index.php", "deck.php"));
    assert_eq!(strip_prefix_str("on May 1, 2020", "on "), Some("May 1, 2020"));
    assert_eq!(strip_prefix_str("May 1, 2020", "on "), None);
}

#[test]
fn splitting_pieces() {
    assert_eq!(
        split_nth("a | b | Date: 01/02/2003", " | ", 2),
        Some(String::from("Date: 01/02/2003"))
    );
    assert_eq!(split_nth("a | b", " | ", 2), None);
    assert_eq!(split_nth("Alice playing Burn", " playing ", 0), Some(String::from("Alice")));
    assert_eq!(split_nth("Alice playing Burn", " playing ", 1), Some(String::from("Burn")));
    assert_eq!(split_nth("no separator", " | ", 0), Some(String::from("no separator")));
}

#[test]
fn word_and_equality() {
    assert_eq!(first_word("standard decklists 2024"), "standard");
    assert_eq!(first_word("single"), "single");
    assert_eq!(first_word(" leading"), "");
    assert!(str_eq("abc", "abc"));
    assert!(!str_eq("abc", "abd"));
    assert!(!str_eq("abc", "ab"));
}
