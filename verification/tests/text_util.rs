use ezsite::diag::usize_to_string;
use ezsite::eval::eval;
use ezsite::table::ConstTable;
use ezsite::text::{
    join_from, replace_all, split_char, split_lines, starts_with, str_eq, tokenize, trim,
    trim_end_colons,
};

#[test]
fn trim_removes_surrounding_whitespace() {
    assert_eq!(trim("  a b\t"), "a b");
    assert_eq!(trim(""), "");
    assert_eq!(trim(" \t "), "");
    assert_eq!(trim("x"), "x");
}

#[test]
fn str_eq_compares_contents() {
    assert!(str_eq("abc", "abc"));
    assert!(!str_eq("abc", "abd"));
    assert!(!str_eq("abc", "ab"));
    assert!(str_eq("", ""));
}

#[test]
fn starts_with_checks_prefix() {
    assert!(starts_with("def x", "def"));
    assert!(starts_with("def", "def"));
    assert!(!starts_with("de", "def"));
    assert!(!starts_with("xdef", "def"));
}

#[test]
fn split_char_keeps_empty_pieces() {
    assert_eq!(split_char("a|b|", '|'), vec!["a", "b", ""]);
    assert_eq!(split_char("", '|'), vec![""]);
    assert_eq!(split_char("ab", '|'), vec!["ab"]);
    assert_eq!(split_char("a.png|alt text", '|'), vec!["a.png", "alt text"]);
}

#[test]
fn split_lines_drops_trailing_newline() {
    assert_eq!(split_lines("a\nb\n"), vec!["a", "b"]);
    assert_eq!(split_lines("a\nb"), vec!["a", "b"]);
    assert_eq!(split_lines("\n"), vec![""]);
    assert!(split_lines("").is_empty());
}

#[test]
fn tokenize_splits_on_whitespace_runs() {
    assert_eq!(tokenize("  a  bb \t c "), vec!["a", "bb", "c"]);
    assert!(tokenize("   ").is_empty());
    assert_eq!(tokenize("one"), vec!["one"]);
}

#[test]
fn join_from_rejoins_with_separator() {
    let toks: Vec<String> = vec!["def".to_string(), "x".to_string(), "a".to_string(), "b".to_string()];
    assert_eq!(join_from(&toks, 2, " "), "a b");
    assert_eq!(join_from(&toks, 1, " "), "x a b");
    assert_eq!(join_from(&toks, 4, " "), "");
}

#[test]
fn trim_end_colons_strips_all_trailing() {
    assert_eq!(trim_end_colons("x:"), "x");
    assert_eq!(trim_end_colons("x::"), "x");
    assert_eq!(trim_end_colons("x:y"), "x:y");
    assert_eq!(trim_end_colons(":"), "");
}

#[test]
fn replace_all_scans_left_to_right() {
    assert_eq!(replace_all("ababa", "aba", "x"), "xba");
    assert_eq!(replace_all("aaa", "aa", "b"), "ba");
    assert_eq!(replace_all("hello", "l", "L"), "heLLo");
    assert_eq!(replace_all("none", "zz", "y"), "none");
}

#[test]
fn eval_replaces_defined_tokens() {
    let mut t = ConstTable::new();
    t.set("x".to_string(), "hello".to_string());
    assert_eq!(eval("%x% world".to_string(), &t), "hello world");
    assert_eq!(eval("%y% world".to_string(), &t), "%y% world");
    assert_eq!(eval("%x%%x%".to_string(), &t), "hellohello");
}

#[test]
fn table_lookup_and_overwrite() {
    let mut t = ConstTable::new();
    assert!(t.get("x").is_none());
    t.set("x".to_string(), "1".to_string());
    t.set("y".to_string(), "2".to_string());
    t.set("x".to_string(), "3".to_string());
    assert_eq!(t.get("x").unwrap(), "3");
    assert_eq!(t.get("y").unwrap(), "2");
    assert_eq!(t.len(), 2);
}

#[test]
fn decimal_rendering() {
    assert_eq!(usize_to_string(0), "0");
    assert_eq!(usize_to_string(7), "7");
    assert_eq!(usize_to_string(10), "10");
    assert_eq!(usize_to_string(12345), "12345");
}
