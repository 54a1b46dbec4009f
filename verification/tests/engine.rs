use lexica::dictionary::engine::normalize_word;
use lexica::dictionary::store::{fts_quote_term, prefix_upper_bound};

#[test]
fn normalize_word_folds_case_width_quotes() {
    assert_eq!(normalize_word("  Meticulous  "), "meticulous");
    assert_eq!(normalize_word("“meticulous”"), "meticulous");
    assert_eq!(normalize_word("don’t"), "don't");
    assert_eq!(normalize_word("ｍｅｔｉｃｕｌｏｕｓ"), "meticulous");
    assert_eq!(normalize_word(""), "");
}

#[test]
fn prefix_upper_bound_covers_range() {
    assert_eq!(prefix_upper_bound("met"), "meu");
    assert_eq!(prefix_upper_bound("a"), "b");
    assert_eq!(prefix_upper_bound(""), "\u{10FFFF}");
    assert_eq!(prefix_upper_bound("é"), "ê");
}

#[test]
fn prefix_upper_bound_skips_characters_that_cannot_grow() {
    assert_eq!(prefix_upper_bound("a\u{10FFFF}"), "b");
    assert_eq!(prefix_upper_bound("a\u{D7FF}"), "b");
}

#[test]
fn fts_terms_are_quoted() {
    assert_eq!(fts_quote_term("don't"), "\"don't\"");
    assert_eq!(fts_quote_term("say \"hi\""), "\"say \"\"hi\"\"\"");
}

#[test]
fn words_with_a_prefix_sort_below_its_bound() {
    for (prefix, words) in [
        ("met", vec!["met", "meta", "meticulous", "met\u{10FFFF}"]),
        ("a\u{D7FF}", vec!["a\u{D7FF}", "a\u{D7FF}z"]),
        ("", vec!["", "zzz", "\u{E000}"]),
    ] {
        let bound = prefix_upper_bound(prefix);
        for w in words {
            assert!(w.starts_with(prefix));
            assert!(w < bound.as_str(), "{w:?} < {bound:?}");
        }
    }
}
