use glean_core::text::{
    chars_of, concat3, contains_str, copy_strings, join, key_order, split, split_once, starts_with,
    str_eq, string_of, substring, KeyOrder,
};

#[test]
fn strings_split_at_every_separator() {
    assert_eq!(vec!["a", "", "b"], split("a//b", '/'));
    assert_eq!(vec![""], split("", '/'));
    assert_eq!(vec!["", ""], split("/", '/'));
    assert_eq!(vec!["no separator"], split("no separator", '.'));
    assert_eq!(vec!["", "submit", "app", "ping", "1", "id"], split("/submit/app/ping/1/id", '/'));
}

#[test]
fn strings_split_once_at_the_first_separator() {
    assert_eq!(
        Some(("a".to_string(), "b/c".to_string())),
        split_once("a/b/c", '/')
    );
    assert_eq!(Some(("".to_string(), "".to_string())), split_once("/", '/'));
    assert_eq!(None, split_once("abc", '/'));
    assert_eq!(None, split_once("", '/'));
}

#[test]
fn strings_join_with_a_separator_between_them() {
    assert_eq!("", join(&vec![], ","));
    assert_eq!("a", join(&vec!["a".to_string()], ","));
    assert_eq!(
        "a, b, ",
        join(&vec!["a".to_string(), "b".to_string(), "".to_string()], ", ")
    );
}

#[test]
fn strings_compare_by_their_code_points() {
    assert!(matches!(key_order("a", "b"), KeyOrder::Less));
    assert!(matches!(key_order("b", "a"), KeyOrder::Greater));
    assert!(matches!(key_order("ab", "ab"), KeyOrder::Equal));
    assert!(matches!(key_order("", "a"), KeyOrder::Less));
    assert!(matches!(key_order("ab", "a"), KeyOrder::Greater));
    assert!(matches!(key_order("Z", "a"), KeyOrder::Less));
    assert!(matches!(key_order("z", "\u{e9}"), KeyOrder::Less));
    assert!(matches!(key_order("\u{10000}", "\u{ffff}"), KeyOrder::Greater));
    assert!(str_eq("", ""));
    assert!(str_eq("\u{e9}t\u{e9}", "\u{e9}t\u{e9}"));
    assert!(!str_eq("a", "A"));
}

#[test]
fn strings_are_taken_apart_and_put_together() {
    assert_eq!(vec!['h', '\u{e9}', '!'], chars_of("h\u{e9}!"));
    assert_eq!("h\u{e9}!", string_of(&vec!['h', '\u{e9}', '!']));
    assert_eq!("", string_of(&vec![]));
    assert_eq!("bc", substring(&vec!['a', 'b', 'c', 'd'], 1, 3));
    assert_eq!("", substring(&vec!['a'], 1, 1));
    assert_eq!("ab", glean_core::text::concat("a", "b"));
    assert_eq!("a.b", concat3("a", ".", "b"));
    assert!(starts_with("telemetry.x/label", "telemetry.x/"));
    assert!(starts_with("a", ""));
    assert!(!starts_with("telemetry.x", "telemetry.x/"));
    assert!(!starts_with("abc", "abd"));
    let list = vec!["a".to_string(), "b".to_string()];
    assert!(contains_str(&list, "b"));
    assert!(!contains_str(&list, "c"));
    assert_eq!(list, copy_strings(&list));
}
