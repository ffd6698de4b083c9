use utree::pattern::{any_match, patmatch};

fn m(buf: &str, pat: &str) -> i32 {
    patmatch(buf.as_bytes(), pat.as_bytes(), false, false)
}

#[test]
fn literal() {
    assert_eq!(m("i", "i"), 1);
    assert_eq!(m("i", "j"), 0);
    assert_eq!(m("", ""), 1);
    assert_eq!(m("abc", "ab"), 0);
}

#[test]
fn star() {
    assert_eq!(m("main.c", "*.c"), 1);
    assert_eq!(m("main.h", "*.c"), 0);
    assert_eq!(m("anything", "*"), 1);
    assert_eq!(m("a.tar.gz", "*.gz"), 1);
    // A single * does not cross path separators.
    assert_eq!(patmatch(b"a/b", b"*", false, false), 0);
}

#[test]
fn question_and_class() {
    assert_eq!(m("cat", "c?t"), 1);
    assert_eq!(m("ct", "c?t"), 0);
    assert_eq!(m("a1", "a[0-9]"), 1);
    assert_eq!(m("ax", "a[0-9]"), 0);
    assert_eq!(m("ax", "a[^0-9]"), 1);
}

#[test]
fn alternation() {
    assert_eq!(m("foo.c", "*.c|*.h"), 1);
    assert_eq!(m("foo.h", "*.c|*.h"), 1);
    assert_eq!(m("foo.o", "*.c|*.h"), 0);
    // Leading/trailing bar is a syntax error: -1.
    assert_eq!(m("x", "|x"), -1);
}

#[test]
fn ignore_case() {
    assert_eq!(patmatch(b"README", b"readme", false, true), 1);
    assert_eq!(patmatch(b"README", b"readme", false, false), 0);
}

#[test]
fn dir_slash() {
    // A trailing slash in the pattern matches only directories.
    assert_eq!(patmatch(b"src", b"src/", true, false), 1);
    assert_eq!(patmatch(b"src", b"src/", false, false), 0);
}

#[test]
fn trailing_bar_is_a_syntax_error() {
    assert_eq!(m("x", "x|"), -1);
    assert_eq!(m("x", "a|b|"), -1);
    assert_eq!(m("a", "a|b|"), 1);
}

#[test]
fn double_star_crosses_slashes() {
    assert_eq!(m("a/b/c", "**"), 1);
    assert_eq!(m("a/b/c.c", "**/c.c"), 1);
    assert_eq!(m("a/b/c.c", "*.c"), 0);
    assert_eq!(m("a/x/b", "a/**/b"), 1);
    // "**" between two slashes may match no directory at all.
    assert_eq!(m("a/b", "a/**/b"), 1);
}

#[test]
fn classes_and_escapes() {
    assert_eq!(m("b", "[abc]"), 1);
    assert_eq!(m("d", "[abc]"), 0);
    assert_eq!(m("]", "[\\]]"), 1);
    assert_eq!(m("*", "\\*"), 1);
    assert_eq!(m("x", "\\*"), 0);
    // An unterminated class is a syntax error.
    assert_eq!(m("a", "[abc"), -1);
    assert_eq!(m("B", "[a-c]"), 0);
    assert_eq!(patmatch(b"B", b"[a-c]", false, true), 1);
}

#[test]
fn class_past_the_end_still_counts() {
    // A negated class consumes a position even past the end of the name.
    assert_eq!(m("a", "a[^x]"), 1);
}

#[test]
fn any_match_tries_path_suffixes() {
    let pats = vec![b"*.c".to_vec(), b"b".to_vec()];
    assert!(any_match(b"x.c", &pats, false, false, false));
    assert!(!any_match(b"dir/x.h", &pats, false, false, false));
    assert!(!any_match(b"a/b", &pats, false, false, false));
    assert!(any_match(b"a/b", &pats, false, false, true));
    assert!(!any_match(b"a/c", &pats, false, false, true));
    let none: Vec<Vec<u8>> = Vec::new();
    assert!(!any_match(b"x.c", &none, false, false, true));
}

#[test]
fn a_pattern_with_a_syntax_error_matches_nothing() {
    let pats = vec![b"[abc".to_vec(), b"x|".to_vec()];
    assert!(!any_match(b"a", &pats, false, false, true));
    assert!(!any_match(b"x", &pats, false, false, true));
    assert!(!any_match(b"d/[abc", &pats, true, false, true));
}
