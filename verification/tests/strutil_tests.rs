use moon_dashboard::strutil::sort_dedup;
use moon_dashboard::strutil::split_str;
use moon_dashboard::strutil::starts_with_str;
use moon_dashboard::strutil::str_eq;
use moon_dashboard::strutil::str_le;
use moon_dashboard::strutil::trim_str;

#[test]
fn trim_strips_both_ends() {
    assert_eq!(trim_str("  hello  "), "hello");
    assert_eq!(trim_str("\thello\r"), "hello");
    assert_eq!(trim_str("hello"), "hello");
    assert_eq!(trim_str("   "), "");
    assert_eq!(trim_str(""), "");
    assert_eq!(trim_str("a b"), "a b");
}

#[test]
fn split_keeps_empty_pieces() {
    assert_eq!(split_str("a b c", ' '), vec!["a", "b", "c"]);
    assert_eq!(split_str("a  b", ' '), vec!["a", "", "b"]);
    assert_eq!(split_str("", ' '), vec![""]);
    assert_eq!(split_str("x", ' '), vec!["x"]);
    assert_eq!(split_str("one\ntwo\n", '\n'), vec!["one", "two", ""]);
}

#[test]
fn prefix_test() {
    assert!(starts_with_str("https://example.com", "https://"));
    assert!(!starts_with_str("http://example.com", "https://"));
    assert!(starts_with_str("abc", ""));
    assert!(!starts_with_str("ab", "abc"));
}

#[test]
fn string_equality_by_characters() {
    assert!(str_eq("latest", "latest"));
    assert!(!str_eq("latest", "latest "));
    assert!(!str_eq("a", "b"));
    assert!(str_eq("", ""));
}

#[test]
fn lexicographic_order() {
    assert!(str_le("a", "b"));
    assert!(!str_le("b", "a"));
    assert!(str_le("a", "a"));
    assert!(str_le("a", "ab"));
    assert!(!str_le("ab", "a"));
    assert!(str_le("0.1.0", "0.2.0"));
    // Plain code-point order, as str comparison has it.
    assert!(str_le("Z", "a"));
}

#[test]
fn sort_dedup_orders_and_removes_duplicates() {
    let input: Vec<String> = ["b", "a", "c", "a", "b"].iter().map(|s| s.to_string()).collect();
    assert_eq!(sort_dedup(&input), vec!["a", "b", "c"]);
    let empty: Vec<String> = Vec::new();
    assert_eq!(sort_dedup(&empty), Vec::<String>::new());
}
