//! The text and number helpers.
use pacpurge::number::{count, number, padded_end, padded_start, parse_i64, parse_u64, parse_usize, signed, zeros};
use pacpurge::path::{is_root, join, parts, parts_at_most};
use pacpurge::sort::{sorted_texts, sorted_unique};
use pacpurge::split::{before_first, joined, rsplit_once, split, split_lines, split_once, split_words, unlined};
use pacpurge::text::{at_most, before_text, contains, ends_with, starts_with, strip_prefix, strip_suffix, trimmed, trimmed_end_of, trimmed_start_of};
use pacpurge::textmap::TextMap;

/// Owned copies.
fn owned(items: &[&str]) -> Vec<String> {
    items.iter().map(|item| (*item).to_owned()).collect()
}

#[test]
fn numbers_are_written_and_read_back() {
    assert_eq!(number(0), "0");
    assert_eq!(number(u64::MAX), "18446744073709551615");
    assert_eq!(count(42), "42");
    assert_eq!(signed(i64::MIN), "-9223372036854775808");
    assert_eq!(parse_u64("18446744073709551615"), Some(u64::MAX));
    assert_eq!(parse_u64("18446744073709551616"), None);
    assert_eq!(parse_u64("+7"), Some(7));
    assert_eq!(parse_u64("-7"), None);
    assert_eq!(parse_u64(""), None);
    assert_eq!(parse_u64("+"), None);
    assert_eq!(parse_u64("1_000"), None);
    assert_eq!(parse_i64("-9223372036854775808"), Some(i64::MIN));
    assert_eq!(parse_i64("9223372036854775808"), None);
    assert_eq!(parse_i64("-"), None);
    assert_eq!(parse_usize("12"), Some(12));
    assert_eq!(parse_usize(" 12"), None);
}

#[test]
fn padding_never_cuts() {
    assert_eq!(padded_start("ab", 4, ' '), "  ab");
    assert_eq!(padded_end("ab", 4, ' '), "ab  ");
    assert_eq!(padded_start("abcde", 4, ' '), "abcde");
    assert_eq!(zeros(7, 2), "07");
    assert_eq!(zeros(-7, 4), "-007");
}

#[test]
fn texts_are_split_as_std_splits_them() {
    let s = "a\r\nb\n\nc";
    assert_eq!(split_lines(s), s.lines().map(|line| line.to_owned()).collect::<Vec<String>>());
    assert_eq!(split_lines("x\n"), owned(&["x"]));
    assert_eq!(split_lines(""), owned(&[]));
    assert_eq!(split(",a,", ','), owned(&["", "a", ""]));
    assert_eq!(split_words("  a \t b\n"), owned(&["a", "b"]));
    assert_eq!(split_once("k=v=w", '='), Some(("k", "v=w")));
    assert_eq!(rsplit_once("k=v=w", '='), Some(("k=v", "w")));
    assert_eq!(split_once("k", '='), None);
    assert_eq!(before_first("a#b", '#'), "a");
    assert_eq!(joined(&owned(&["a", "b"]), ", "), "a, b");
    assert_eq!(unlined(&owned(&["a", "b"])), "a\nb\n");
}

#[test]
fn texts_are_trimmed_and_stripped_as_std_does() {
    assert_eq!(trimmed("\u{2003} a \n"), "a");
    assert_eq!(trimmed_start_of("//a/", '/'), "a/");
    assert_eq!(trimmed_end_of("//a//", '/'), "//a");
    assert_eq!(strip_prefix("usr/bin/x", "usr/"), Some("bin/x"));
    assert_eq!(strip_prefix("usr", "usr/"), None);
    assert_eq!(strip_suffix("x.sig", ".sig"), Some("x"));
    assert_eq!(before_text("fd: x: y", ": "), "fd");
    assert!(contains("abc", "bc") && !contains("abc", "cb") && contains("", ""));
    assert!(starts_with("abc", "ab") && ends_with("abc", "bc"));
    assert!(at_most("B", "a") && at_most("a", "a\u{e9}") && !at_most("b", "a"));
}

#[test]
fn lists_are_sorted_by_code_point() {
    assert_eq!(sorted_texts(&owned(&["b", "a", "B", "a"])), owned(&["B", "a", "a", "b"]));
    assert_eq!(sorted_unique(&owned(&["b", "a", "b"])), owned(&["a", "b"]));
}

#[test]
fn paths_join_as_std_paths_do() {
    assert_eq!(join("/a", "b"), "/a/b");
    assert_eq!(join("/a/", "b"), "/a/b");
    assert_eq!(join("/a", "/b"), "/b");
    assert_eq!(join("", "b"), "b");
    assert_eq!(join("/a", ""), "/a/");
    assert!(is_root("/") && is_root("//") && !is_root("/a"));
    assert!(parts_at_most(&parts("/etc/a"), &parts("/etc/a/b")));
    // Component by component: `a` comes before `a-b`, also with more behind it.
    assert!(parts_at_most(&parts("/etc/a/z"), &parts("/etc/a-b")));
}

#[test]
fn a_map_keeps_the_last_value_of_a_key() {
    let mut map = TextMap::new();
    map.insert("b", 1);
    map.insert("a", 2);
    map.insert("b", 3);
    assert_eq!(map.get("b"), Some(&3));
    assert_eq!(map.get("c"), None);
    assert!(map.contains_key("a"));
}
