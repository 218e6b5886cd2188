use aperio::text::{
    chars_less, contains, find, join, remove_char, split_char, starts_with, trim, trim_start,
};

fn cs(s: &str) -> Vec<char> {
    s.chars().collect()
}

fn st(v: Vec<char>) -> String {
    v.into_iter().collect()
}

#[test]
fn trims_unicode_white_space() {
    assert_eq!(st(trim_start(&cs(" \t\n\u{3000}x y "))), "x y ");
    assert_eq!(st(trim(&cs("\u{a0} x y \u{2029}"))), "x y");
    assert_eq!(st(trim(&cs("   "))), "");
    assert_eq!(st(trim(&cs("\u{200b}x"))), "\u{200b}x");
}

#[test]
fn finds_first_occurrence() {
    assert_eq!(find(&cs("a\n---b\n---"), &cs("\n---")), Some(1));
    assert_eq!(find(&cs("abc"), &cs("")), Some(0));
    assert_eq!(find(&cs("abc"), &cs("abcd")), None);
    assert!(contains(&cs("Hello"), &cs("ll")));
    assert!(!contains(&cs("Hello"), &cs("LL")));
    assert!(starts_with(&cs("---x"), &cs("---")));
    assert!(!starts_with(&cs("--"), &cs("---")));
}

#[test]
fn splits_and_joins() {
    let parts = split_char(&cs(",a,,b,"), ',');
    assert_eq!(parts, vec!["", "a", "", "b", ""]);
    assert_eq!(split_char(&cs(""), ','), vec![""]);
    let joined = join(&vec!["x".to_string(), "y".to_string()], "`, `");
    assert_eq!(st(joined), "x`, `y");
    assert_eq!(st(join(&Vec::new(), ", ")), "");
}

#[test]
fn removes_quotes() {
    assert_eq!(st(remove_char(&cs("\"https://x/\\\"y\""), '"')), "https://x/\\y");
}

#[test]
fn orders_text() {
    assert!(chars_less(&cs("a"), &cs("ab")));
    assert!(chars_less(&cs("B"), &cs("a")));
    assert!(!chars_less(&cs("b"), &cs("b")));
    assert!(chars_less(&cs(""), &cs("a")));
}
