//! The small parts that rendering is made of, held against std where std has
//! them.

use luau_lad_backend::docs::{
    doc_line, is_white_space, push_doc, split_lines, split_words, trim_end,
};
use luau_lad_backend::ident::{callable_name, field_key, is_reserved, sanitize, RESERVED};
use luau_lad_backend::naming::{allocate, fresh_name};
use luau_lad_backend::order::{sort_positions, sorted_by_keys};
use luau_lad_backend::text::{
    contains_text, join, push_distinct, same_text, starts_with, text_at_most, to_decimal,
};

/// Texts with every kind of blank and line end.
const SAMPLES: [&str; 18] = [
    "",
    " ",
    "a",
    "one two",
    "  one\t two\n three  ",
    "\n",
    "\n\n",
    "a\nb",
    "a\nb\n",
    "a\r\nb\r\n",
    "a\rb",
    "a\r\r\nb",
    "\r",
    "trailing \t\u{a0}\u{2003}",
    "\u{3000}wide\u{3000}",
    "é — ü",
    "x\u{85}y\u{2028}z",
    "last line \r",
];

fn strings(list: &[&str]) -> Vec<String> {
    list.iter().map(|s| s.to_string()).collect()
}

#[test]
fn white_space_is_that_of_unicode() {
    for code in 0..0x11_0000u32 {
        if let Some(c) = char::from_u32(code) {
            assert_eq!(is_white_space(c), c.is_whitespace(), "{code:x}");
        }
    }
}

#[test]
fn words_lines_and_trimming_agree_with_std() {
    for s in SAMPLES {
        let words: Vec<String> = s.split_whitespace().map(|w| w.to_string()).collect();
        assert_eq!(split_words(s), words, "{s:?}");
        let lines: Vec<String> = s.lines().map(|l| l.to_string()).collect();
        assert_eq!(split_lines(s), lines, "{s:?}");
        assert_eq!(trim_end(s), s.trim_end(), "{s:?}");
    }
}

#[test]
fn documentation_is_flattened_onto_one_line() {
    let once = doc_line(&Some("\u{a0}one\r\n two\u{3000}three ".to_string()));
    assert_eq!(once, Some("one two three".to_string()));
    assert_eq!(doc_line(&once), once);
    assert_eq!(doc_line(&None), None);
    assert_eq!(doc_line(&Some(" \n\t ".to_string())), None);
    assert_eq!(
        doc_line(&Some("  The other\n  marker. ".to_string())),
        Some("The other marker.".to_string())
    );
}

#[test]
fn every_documentation_line_becomes_a_comment() {
    let mut out = String::from("before\n");
    push_doc(&mut out, "First.  \n\nThird.\r\n", "\t");
    assert_eq!(out, "before\n\t-- First.\n\t-- \n\t-- Third.\n");
}

#[test]
fn texts_compare_like_std() {
    for a in SAMPLES {
        for b in SAMPLES {
            assert_eq!(same_text(a, b), a == b);
            assert_eq!(text_at_most(a, b), a <= b, "{a:?} {b:?}");
            assert_eq!(starts_with(a, b), a.starts_with(b));
        }
    }
    assert!(text_at_most("Z", "a"));
    assert!(!text_at_most("é", "z"));
}

#[test]
fn numbers_are_written_in_decimal() {
    for n in [0, 1, 9, 10, 11, 99, 100, 1234567890, usize::MAX] {
        assert_eq!(to_decimal(n), n.to_string());
    }
}

#[test]
fn joining_puts_the_separator_between_neighbours() {
    assert_eq!(join(&strings(&[]), " | "), "");
    assert_eq!(join(&strings(&["a"]), " | "), "a");
    assert_eq!(join(&strings(&["a", "b", "c"]), " | "), "a | b | c");
}

#[test]
fn distinct_texts_are_kept_once() {
    let mut list = strings(&["number"]);
    push_distinct(&mut list, "string".to_string());
    push_distinct(&mut list, "number".to_string());
    assert_eq!(list, strings(&["number", "string"]));
    assert!(contains_text(&list, "string"));
    assert!(!contains_text(&list, "any"));
}

#[test]
fn sorting_is_stable() {
    let keys = vec![
        ("b".to_string(), "1".to_string()),
        ("a".to_string(), "2".to_string()),
        ("b".to_string(), "0".to_string()),
        ("a".to_string(), "2".to_string()),
        ("".to_string(), "".to_string()),
    ];
    assert_eq!(sort_positions(&keys), vec![4, 1, 3, 2, 0]);
    assert_eq!(sorted_by_keys(&vec![50, 51, 52, 53, 54], &keys), vec![54, 51, 53, 52, 50]);
}

#[test]
fn names_are_suffixed_until_they_are_free() {
    let used = strings(&["Reg", "Reg_", "Other"]);
    assert_eq!(fresh_name("Reg".to_string(), &used), "Reg__");
    assert_eq!(fresh_name("Free".to_string(), &used), "Free");
    let mut taken = strings(&["A"]);
    let given = allocate(
        vec![Some("A".to_string()), None, Some("A".to_string()), Some("B".to_string())],
        &mut taken,
    );
    assert_eq!(
        given,
        vec![Some("A_".to_string()), None, Some("A__".to_string()), Some("B".to_string())]
    );
    assert_eq!(taken, strings(&["A", "A_", "A__", "B"]));
}

#[test]
fn sanitising_gives_identifiers() {
    assert_eq!(sanitize(""), "");
    assert_eq!(sanitize("9lives"), "_9lives");
    assert_eq!(sanitize("a-b c::d"), "a_b_c__d");
    assert_eq!(sanitize("é"), "_");
    assert_eq!(sanitize("plain_name9"), "plain_name9");
    assert_eq!(sanitize(&sanitize("9 lives")), sanitize("9 lives"));
}

#[test]
fn keywords_are_quoted_as_keys_and_never_bound() {
    for keyword in RESERVED {
        assert!(is_reserved(keyword));
        assert_eq!(field_key(keyword), format!("[\"{keyword}\"]"));
        assert_eq!(callable_name(keyword), None);
    }
    assert!(!is_reserved("End"));
    assert!(!is_reserved(""));
    assert_eq!(callable_name(""), None);
    assert_eq!(callable_name("end_"), Some("end_".to_string()));
    assert_eq!(callable_name("my-fn"), Some("my_fn".to_string()));
}
