use devenv_tasks::text::{bytes_before, decimal_text, join, str_precedes, strip_prefix};
use devenv_tasks::StrMap;

#[test]
fn map_is_walked_in_key_order() {
    let m = StrMap::new()
        .insert("b".to_string(), 2u8)
        .insert("a".to_string(), 1u8)
        .insert("B".to_string(), 3u8)
        .insert("a".to_string(), 4u8);
    assert_eq!(m.len(), 3);
    assert_eq!(m.key(0), "B");
    assert_eq!(m.key(1), "a");
    assert_eq!(m.key(2), "b");
    assert_eq!(*m.value(1), 4);
    assert_eq!(m.get("b"), Some(&2));
    assert_eq!(m.get("c"), None);
    let (taken, rest) = m.take("a");
    assert_eq!(taken, Some(4));
    assert_eq!(rest.get("a"), None);
    assert_eq!(rest.into_entries(), vec![("B".to_string(), 3), ("b".to_string(), 2)]);
}

#[test]
fn map_keeps_the_last_entry_of_a_key() {
    let m = StrMap::from_entries(vec![
        ("x".to_string(), "1".to_string()),
        ("a".to_string(), "2".to_string()),
        ("x".to_string(), "3".to_string()),
    ]);
    assert_eq!(m.get("x").map(String::as_str), Some("3"));
    let other = StrMap::new().insert("x".to_string(), "4".to_string());
    let both = m.copy().extend(&other);
    assert_eq!(both.get("x").map(String::as_str), Some("4"));
    assert_eq!(both.get("a").map(String::as_str), Some("2"));
    assert_eq!(m.get("x").map(String::as_str), Some("3"));
}

#[test]
fn strings_are_ordered_by_their_bytes() {
    assert!(str_precedes("", "a"));
    assert!(str_precedes("Z", "a"));
    assert!(str_precedes("a", "ab"));
    assert!(str_precedes("z", "\u{e9}"));
    assert!(!str_precedes("a", "a"));
    assert!(bytes_before(&[0x7f], &[0xff]));
    assert!(!bytes_before(&[1, 2], &[1]));
}

#[test]
fn numbers_are_written_in_decimal() {
    assert_eq!(decimal_text(0), "0");
    assert_eq!(decimal_text(33188), "33188");
    assert_eq!(decimal_text(u64::MAX), "18446744073709551615");
}

#[test]
fn texts_are_joined_and_stripped() {
    assert_eq!(join(&vec!["a", "b", "c"], ", "), "a, b, c");
    assert_eq!(join(&Vec::new(), ", "), "");
    assert_eq!(strip_prefix("devenv:x", "devenv:"), Some("x"));
    assert_eq!(strip_prefix("x", "devenv:"), None);
}
