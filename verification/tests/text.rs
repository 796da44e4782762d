use thebook::text::{
    chars_of, contains, ends_with, is_whitespace, matches_at, position_of, push_all,
    push_decimal, push_str, slice_of, starts_with, terms_of, trim_bounds,
};

fn chars(s: &str) -> Vec<char> {
    s.chars().collect()
}

fn str_contains(hay: &str, needle: &str) -> bool {
    contains(&chars(hay), &chars(needle))
}

#[test]
fn chars_of_gives_the_characters_in_order() {
    assert_eq!(chars_of("a#é\n"), vec!['a', '#', 'é', '\n']);
    assert_eq!(chars_of(""), Vec::<char>::new());
}

#[test]
fn contains_finds_a_part_anywhere() {
    assert!(str_contains("the ownership rules", "ownership"));
    assert!(str_contains("ownership", "ownership"));
    assert!(str_contains("xxownership", "ownership"));
    assert!(str_contains("ownershipxx", "own"));
    assert!(!str_contains("owner ship", "ownership"));
    assert!(!str_contains("own", "ownership"));
}

#[test]
fn contains_is_case_sensitive() {
    assert!(!str_contains("Ownership", "ownership"));
    assert!(str_contains("Ownership", "wnership"));
}

#[test]
fn contains_the_empty_text_everywhere() {
    assert!(str_contains("abc", ""));
    assert!(str_contains("", ""));
    assert!(!str_contains("", "a"));
}

#[test]
fn contains_agrees_with_std_on_overlaps() {
    let cases = [("aaab", "aab"), ("abababc", "ababc"), ("aaaa", "aaaaa"), ("ab", "ba")];
    for (hay, needle) in cases {
        assert_eq!(contains(&chars(hay), &chars(needle)), hay.contains(needle), "{hay} {needle}");
    }
}

#[test]
fn contains_works_on_characters_not_bytes() {
    assert!(str_contains("naïve café", "ïve c"));
    assert!(!str_contains("é", "e"));
}

#[test]
fn matches_at_checks_one_position() {
    let hay = chars("abcabc");
    let needle = chars("bc");
    assert!(matches_at(&hay, &needle, 1));
    assert!(matches_at(&hay, &needle, 4));
    assert!(!matches_at(&hay, &needle, 0));
    assert!(!matches_at(&hay, &needle, 5));
    assert!(!matches_at(&hay, &needle, 6));
    assert!(!matches_at(&hay, &needle, usize::MAX));
    assert!(matches_at(&hay, &chars(""), 6));
    assert!(!matches_at(&hay, &chars(""), 7));
}

#[test]
fn starts_and_ends() {
    assert!(starts_with(&chars("{{#include x}}"), &chars("{{#include ")));
    assert!(!starts_with(&chars("{{#includ"), &chars("{{#include ")));
    assert!(starts_with(&chars("abc"), &chars("")));
    assert!(ends_with(&chars("chapter.md"), &chars(".md")));
    assert!(!ends_with(&chars("chapter.md.bak"), &chars(".md")));
    assert!(!ends_with(&chars("md"), &chars(".md")));
    assert!(ends_with(&chars(".md"), &chars(".md")));
}

#[test]
fn whitespace_is_the_unicode_property() {
    let mut code: u32 = 0;
    while code <= 0x10FFFF {
        if let Some(c) = char::from_u32(code) {
            assert_eq!(is_whitespace(c), c.is_whitespace(), "U+{code:04X}");
        }
        code += 1;
    }
}

#[test]
fn trim_bounds_agree_with_std_trim() {
    let cases = [
        "",
        " ",
        "abc",
        "  abc",
        "abc\n\t ",
        " \n a b \u{3000}",
        "\u{a0}x\u{2003}",
        " \t\n\r",
    ];
    for case in cases {
        let v = chars(case);
        let (from, to) = trim_bounds(&v);
        assert!(from <= to && to <= v.len());
        let got: String = v[from..to].iter().collect();
        assert_eq!(got, case.trim(), "{case:?}");
    }
}

#[test]
fn position_of_gives_the_first_or_the_length() {
    assert_eq!(position_of(&chars("a/b/c"), '/'), 1);
    assert_eq!(position_of(&chars("/"), '/'), 0);
    assert_eq!(position_of(&chars("abc"), '/'), 3);
    assert_eq!(position_of(&chars(""), '/'), 0);
}

#[test]
fn slice_of_copies_a_range() {
    let v = chars("hello");
    assert_eq!(slice_of(&v, 1, 3), chars("el"));
    assert_eq!(slice_of(&v, 0, 5), v);
    assert_eq!(slice_of(&v, 5, 5), chars(""));
}

#[test]
fn decimal_digits() {
    let cases: [u128; 10] =
        [0, 7, 9, 10, 45, 100, 1234567890, 4294967295, u64::MAX as u128, u128::MAX];
    for n in cases {
        let mut out = chars("n=");
        push_decimal(&mut out, n);
        let got: String = out.iter().collect();
        assert_eq!(got, format!("n={n}"));
    }
}

#[test]
fn pushing_appends() {
    let mut out = chars("ab");
    push_all(&mut out, &chars("cd"));
    push_str(&mut out, "é!");
    push_all(&mut out, &chars(""));
    assert_eq!(out, chars("abcdé!"));
}

#[test]
fn terms_of_keeps_every_term() {
    let words = vec!["own".to_string(), "".to_string(), "bor row".to_string()];
    assert_eq!(terms_of(&words), vec![chars("own"), chars(""), chars("bor row")]);
    assert_eq!(terms_of(&Vec::new()), Vec::<Vec<char>>::new());
}
