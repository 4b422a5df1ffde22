use sqldap::order::{comes_before, insert_name};
use sqldap::text::{
    from_chars, join_with, occurs_at, replaced, to_chars, translated, unquote,
};

fn chars(s: &str) -> Vec<char> {
    s.chars().collect()
}

fn replace(s: &str, pat: &str, to: &str) -> String {
    replaced(&chars(s), &chars(pat), &chars(to)).into_iter().collect()
}

#[test]
fn characters_and_strings_convert_both_ways() {
    assert_eq!(to_chars("a\u{e4}\u{1f600}"), vec!['a', '\u{e4}', '\u{1f600}']);
    assert_eq!(from_chars(&vec!['a', '\u{e4}', '\u{1f600}']), "a\u{e4}\u{1f600}");
    assert!(to_chars("").is_empty());
    assert_eq!(from_chars(&vec![]), "");
}

#[test]
fn unquote_strips_double_quotes_at_both_ends() {
    let strip = |s: &str| -> String { unquote(&chars(s)).into_iter().collect() };
    assert_eq!(strip("\"abc\""), "abc");
    assert_eq!(strip("\"\"abc\""), "abc");
    assert_eq!(strip("abc\"\"\""), "abc");
    assert_eq!(strip("a\"b"), "a\"b");
    assert_eq!(strip("\"\"\""), "");
    assert_eq!(strip(""), "");
    assert_eq!(strip("'abc'"), "'abc'");
}

#[test]
fn translate_turns_every_occurrence() {
    let out: String = translated(&chars("%a%%b"), '%', '*').into_iter().collect();
    assert_eq!(out, "*a**b");
    assert!(translated(&vec![], '%', '*').is_empty());
}

#[test]
fn occurrences_are_found_at_a_position() {
    assert!(occurs_at(&chars("abcabc"), 3, &chars("abc")));
    assert!(!occurs_at(&chars("abcabc"), 4, &chars("abc")));
    assert!(occurs_at(&chars("abc"), 3, &chars("")));
    assert!(!occurs_at(&chars("ab"), 0, &chars("abc")));
}

#[test]
fn replace_matches_the_standard_library_on_patterns_with_content() {
    let cases = [
        ("@a@ab", "@a", "x"),
        ("aaaa", "aa", "b"),
        ("aaa", "aa", "b"),
        ("abab", "ab", "abab"),
        ("a;\nb;\n", ";\n", ";"),
        ("", "a", "b"),
        ("abc", "abcd", "x"),
        ("abc", "abc", ""),
        ("xabcx", "abc", "abc"),
        ("\u{e4}\u{e4}", "\u{e4}", "ae"),
    ];
    for (s, pat, to) in cases {
        assert_eq!(replace(s, pat, to), s.replace(pat, to));
    }
}

#[test]
fn empty_pattern_occurs_nowhere() {
    assert_eq!(replace("abc", "", "x"), "abc");
}

#[test]
fn dictionary_order_of_texts() {
    assert!(comes_before("a", "b"));
    assert!(comes_before("", "a"));
    assert!(comes_before("a", "aa"));
    assert!(comes_before("B", "a"));
    assert!(comes_before("ab", "b"));
    assert!(comes_before("z", "\u{e4}"));
    assert!(!comes_before("a", "a"));
    assert!(!comes_before("b", "a"));
    assert!(!comes_before("", ""));
    assert!(!comes_before("aa", "a"));
    let words = ["", "B", "a", "aa", "ab", "b", "z", "\u{e4}", "\u{1f600}"];
    for x in words {
        for y in words {
            assert_eq!(comes_before(x, y), x < y);
        }
    }
}

#[test]
fn names_are_inserted_in_their_place_once() {
    let mut names: Vec<String> = vec![];
    for name in ["m", "a", "z", "m", "b", "a", "zz"] {
        insert_name(&mut names, &name.to_string());
    }
    assert_eq!(names, vec!["a", "b", "m", "z", "zz"]);
}

#[test]
fn texts_are_joined_with_a_separating_text() {
    let parts = |items: &[&str]| -> Vec<String> { items.iter().map(|s| s.to_string()).collect() };
    assert_eq!(join_with(&parts(&[]), ", "), "");
    assert_eq!(join_with(&parts(&["a"]), ", "), "a");
    assert_eq!(join_with(&parts(&["a", "", "c"]), ", "), "a, , c");
    assert_eq!(join_with(&parts(&["a", "b"]), ""), "ab");
}
