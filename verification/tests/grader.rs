use lexica::dictionary::model::{Example, Sense, WordEntry};
use lexica::domain::{ExampleId, SenseId, WordId};
use lexica::memory::model::RecallQuality;
use lexica::review::grader::{
    blank_word, build_definition_prompt, build_prompt, edit_distance, is_correct, mask_hint,
    quality_for,
};
use lexica::review::model::PromptKind;

#[test]
fn repeated_answers_are_all_hidden_and_short_words_require_exact_match() {
    assert_eq!(
        blank_word("A word is a word.", "word").as_deref(),
        Some("A ______ is a ______.")
    );
    assert!(!is_correct("on", "in"));
    assert!(!is_correct("cut", "cat"));
    assert!(is_correct("Subtl", "subtle"));
}

#[test]
fn cloze_blanks_word_case_insensitively() {
    let out = blank_word(
        "She was extremely Meticulous when reviewing her code.",
        "meticulous",
    )
    .unwrap();
    assert_eq!(out, "She was extremely ______ when reviewing her code.");
}

#[test]
fn cloze_respects_word_boundaries() {
    assert!(blank_word("The theme changed.", "he").is_none());
    assert_eq!(
        blank_word("He agreed.", "he").as_deref(),
        Some("______ agreed.")
    );
}

#[test]
fn cloze_returns_none_when_word_absent() {
    assert!(blank_word("A completely unrelated sentence.", "meticulous").is_none());
}

fn zenith() -> WordEntry {
    WordEntry {
        id: WordId(1),
        word: "zenith".into(),
        display: "zenith".into(),
        phonetic: None,
        frequency_rank: None,
        senses: vec![Sense {
            id: SenseId(1),
            pos: Some("n.".into()),
            english_definition: "the highest point".into(),
            chinese_definition: Some("顶点".into()),
            level: None,
            examples: vec![],
        }],
        collocations: vec![],
        synonyms: vec![],
        antonyms: vec![],
        word_family: vec![],
    }
}

#[test]
fn prompt_kinds_follow_priority() {
    let entry = zenith();
    let p = build_prompt(&entry);
    assert_eq!(p.kind, PromptKind::Definition);
    assert_eq!(p.text, "the highest point");
    assert_eq!(p.sense_id, Some(SenseId(1)));
    assert_eq!(p.example_id, None);

    let mut zh_only = entry.clone();
    zh_only.senses[0].english_definition = String::new();
    let p = build_prompt(&zh_only);
    assert_eq!(p.kind, PromptKind::DefinitionZh);
    assert_eq!(p.text, "顶点");

    let mut with_example = entry.clone();
    with_example.senses[0].examples.push(Example {
        id: ExampleId(7),
        text: "The sun reached its zenith at noon.".into(),
        translation: None,
    });
    let p = build_prompt(&with_example);
    assert_eq!(p.kind, PromptKind::Cloze);
    assert_eq!(p.text, "The sun reached its ______ at noon.");
    assert_eq!(p.example_id, Some(ExampleId(7)));

    let mut empty = entry.clone();
    empty.senses[0].english_definition = String::new();
    empty.senses[0].chinese_definition = None;
    let p = build_prompt(&empty);
    assert!(p.text.trim().is_empty());
}

#[test]
fn mask_hint_shapes() {
    assert_eq!(mask_hint("meticulous"), "m_________");
    assert_eq!(mask_hint("go"), "g_");
    assert_eq!(mask_hint(""), "");
}

#[test]
fn hints_map_to_quality() {
    assert_eq!(quality_for(true, 0), RecallQuality::Excellent);
    assert_eq!(quality_for(true, 1), RecallQuality::Good);
    assert_eq!(quality_for(true, 2), RecallQuality::Hard);
    assert_eq!(quality_for(true, 3), RecallQuality::Poor);
    assert_eq!(quality_for(true, 7), RecallQuality::Poor);
    assert_eq!(quality_for(false, 0), RecallQuality::Forgotten);
}

#[test]
fn answer_matching_normalizes_and_tolerates_typos() {
    assert!(is_correct("Meticulous", "meticulous"));
    assert!(is_correct(" meticulous ", "meticulous"));
    assert!(is_correct("meticulus", "meticulous"));
    assert!(!is_correct("Meticulosu", "meticulous"));
    assert!(!is_correct("meticulousss", "meticulous"));
    assert!(!is_correct("", "meticulous"));
    assert!(!is_correct("different", "meticulous"));
}

#[test]
fn edit_distance_basics() {
    assert_eq!(edit_distance("", ""), 0);
    assert_eq!(edit_distance("a", ""), 1);
    assert_eq!(edit_distance("kitten", "sitting"), 3);
    assert_eq!(edit_distance("same", "same"), 0);
}

#[test]
fn definition_prompt_prefers_chinese_and_blanks_the_word() {
    let mut entry = zenith();
    entry.senses[0].examples.push(Example {
        id: ExampleId(7),
        text: "The sun reached its zenith at noon.".into(),
        translation: None,
    });
    entry.senses[0].chinese_definition = Some("zenith 顶点".into());
    let p = build_definition_prompt(&entry);
    assert_eq!(p.kind, PromptKind::DefinitionZh);
    assert_eq!(p.text, "______ 顶点");
    assert_eq!(p.example_id, None);
    assert_eq!(p.sense_id, Some(SenseId(1)));
}

#[test]
fn definition_prompt_falls_back_to_english_then_empty() {
    let mut entry = zenith();
    entry.senses[0].chinese_definition = Some("   ".into());
    let p = build_definition_prompt(&entry);
    assert_eq!(p.kind, PromptKind::Definition);
    assert_eq!(p.text, "the highest point");
    entry.senses[0].english_definition = " ".into();
    let p = build_definition_prompt(&entry);
    assert_eq!(p.kind, PromptKind::Definition);
    assert_eq!(p.text, "");
    assert_eq!(p.sense_id, None);
}

#[test]
fn blank_word_keeps_text_after_last_match_and_requires_word() {
    assert_eq!(blank_word("go, go!", "GO").as_deref(), Some("______, ______!"));
    assert_eq!(blank_word("goes", "go"), None);
    assert_eq!(blank_word("anything", ""), None);
    assert_eq!(blank_word("a", "abc"), None);
}

#[test]
fn typo_tolerance_needs_five_letters() {
    assert!(is_correct("subtl", "subtle"));
    assert!(!is_correct("sutle", "subtl"));
    assert!(is_correct("catt", "catt"));
    assert!(!is_correct("cat", "catt"));
    assert_eq!(edit_distance("flaw", "lawn"), 2);
}

#[test]
fn blanking_a_cloze_again_finds_nothing() {
    let once = blank_word("Cat and cat, catalog cat_cat.", "cat").unwrap();
    assert_eq!(once, "______ and ______, catalog ".to_string() + &"_".repeat(13) + ".");
    assert_eq!(blank_word(&once, "cat"), None);
    let twice = blank_word("ab ab ab", "AB").unwrap();
    assert_eq!(twice, "______ ______ ______");
    assert_eq!(blank_word(&twice, "ab"), None);
}

#[test]
fn edit_distance_is_symmetric_zero_only_when_equal_and_bounded_by_lengths() {
    assert_eq!(edit_distance("kitten", "sitting"), 3);
    assert_eq!(edit_distance("sitting", "kitten"), 3);
    assert_eq!(edit_distance("meticulous", "meticulous"), 0);
    assert_eq!(edit_distance("Meticulous", "meticulous"), 1);
    assert_eq!(edit_distance("", "abc"), 3);
    assert_eq!(edit_distance("abc", "xyz"), 3);
    assert_eq!(edit_distance("abcdef", "ab"), 4);
    assert_eq!(edit_distance("éa", "ae"), 2);
}
