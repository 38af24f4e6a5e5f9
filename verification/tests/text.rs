//! Texts, paths and order.
use collab::paths::{ancestors, file_name, join, parent_of, same_path};
use collab::sorting::{order_by, sorted_names};
use collab::text::{
    bytes_in, chars_of, clip_bytes, clip_chars, contains, ends_with, glue3, less, lines, number,
    pad_end, pad_start, parse_number, repeat, replace, signed, split, split_once, starts_with,
    string_of, strip_prefix, trim, words,
};

#[test]
fn characters_come_back_as_they_were() {
    assert_eq!(string_of(&chars_of("a\u{d7}b")), "a\u{d7}b");
    assert_eq!(bytes_in("a\u{d7}b"), 4);
    assert_eq!(clip_bytes("a\u{d7}b", 2), "a");
    assert_eq!(clip_chars("a\u{d7}b", 2), "a\u{d7}");
}

#[test]
fn texts_are_cut_like_std_cuts_them() {
    for s in ["", "a", "a,b", ",a,", "a,,b"] {
        let want: Vec<&str> = s.split(',').collect();
        assert_eq!(split(s, ','), want);
    }
    for s in ["", "a", "a\n", "a\n\nb", "a\r\nb", "\n"] {
        let want: Vec<&str> = s.lines().collect();
        assert_eq!(lines(s), want);
    }
    for s in ["", " a  b\tc\n", "\u{a0}x"] {
        let want: Vec<&str> = s.split_whitespace().collect();
        assert_eq!(words(s), want);
        assert_eq!(trim(s), s.trim());
    }
    assert_eq!(split_once("a=b=c", '='), Some(("a".to_string(), "b=c".to_string())));
    assert_eq!(split_once("abc", '='), None);
}

#[test]
fn texts_are_searched_like_std_searches_them() {
    assert!(contains("hello", "ell") && !contains("hello", "elo") && contains("x", ""));
    assert!(starts_with("hello", "he") && ends_with("hello", "lo"));
    assert_eq!(replace("aaa", "aa", "b"), "aaa".replace("aa", "b"));
    assert_eq!(strip_prefix("abc", "ab").as_deref(), Some("c"));
    assert!(strip_prefix("abc", "x").is_none());
}

#[test]
fn numbers_are_written_and_read() {
    assert_eq!(number(u64::MAX), u64::MAX.to_string());
    assert_eq!(signed(i64::MIN), i64::MIN.to_string());
    assert_eq!(parse_number("18446744073709551615"), Some(u64::MAX));
    assert_eq!(parse_number("18446744073709551616"), None);
    assert_eq!(parse_number(""), None);
    assert_eq!(parse_number("+5"), "+5".parse().ok());
}

#[test]
fn cells_are_padded() {
    assert_eq!(pad_end("ab", 4), "ab  ");
    assert_eq!(pad_start("ab", 4), "  ab");
    assert_eq!(repeat('x', 3), "xxx");
    assert_eq!(glue3("a", "b", "c"), "abc");
}

#[test]
fn names_are_put_in_order() {
    let v: Vec<String> = ["b", "a", "ab"].iter().map(|s| s.to_string()).collect();
    assert_eq!(sorted_names(&v), vec!["a", "ab", "b"]);
    assert!(less("a", "b") && !less("b", "a") && less("a", "ab"));
    assert_eq!(order_by(&vec![3, 1, 2], false), vec![1, 2, 0]);
    assert_eq!(order_by(&vec![3, 1, 2], true), vec![0, 2, 1]);
}

#[test]
fn paths_are_joined_and_taken_apart() {
    assert_eq!(join("/a", "b"), "/a/b");
    assert_eq!(join("/a", "/b"), "/b");
    assert_eq!(parent_of("/a/b").as_deref(), Some("/a"));
    assert_eq!(parent_of("/"), None);
    assert_eq!(ancestors("/a/b"), vec!["/a/b", "/a", "/"]);
    assert_eq!(file_name("/a/b").as_deref(), Some("b"));
    assert!(same_path("/a/b/", "/a/b"));
}
