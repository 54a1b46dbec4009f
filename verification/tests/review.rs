use lexica::dictionary::model::{Example, Sense, WordEntry};
use lexica::domain::{ExampleId, ReviewId, SenseId, WordId};
use lexica::memory::model::RecallQuality;
use lexica::memory::service::REVIEW_SESSION_LIMIT;
use lexica::review::model::{Hint, PromptKind, PromptSource};
use lexica::review::service::{
    decode_pending, hint_action, submit_action, PendingReview, ReviewError, ReviewService,
};

fn sense(id: i64, english: &str, chinese: Option<&str>, examples: Vec<Example>) -> Sense {
    Sense {
        id: SenseId(id),
        pos: Some("adj.".into()),
        english_definition: english.into(),
        chinese_definition: chinese.map(|s| s.to_string()),
        level: None,
        examples,
    }
}

fn entry(id: i64, word: &str, senses: Vec<Sense>) -> WordEntry {
    WordEntry {
        id: WordId(id),
        word: word.into(),
        display: word.into(),
        phonetic: None,
        senses,
        collocations: Vec::new(),
        synonyms: Vec::new(),
        antonyms: Vec::new(),
        word_family: Vec::new(),
        frequency_rank: None,
    }
}

fn rigorous() -> WordEntry {
    entry(
        7,
        "rigorous",
        vec![sense(
            20,
            "extremely thorough and careful",
            Some("严格的，缜密的"),
            vec![Example { id: ExampleId(30), text: "a rigorous test".into(), translation: None }],
        )],
    )
}

fn elaborate() -> WordEntry {
    entry(
        8,
        "elaborate",
        vec![
            sense(21, "involving many carefully arranged parts", Some("复杂的"), vec![]),
            sense(
                22,
                "to add more information",
                Some("详细说明"),
                vec![
                    Example { id: ExampleId(31), text: "Could you elaborate?".into(), translation: None },
                    Example { id: ExampleId(32), text: "He elaborated on it.".into(), translation: None },
                ],
            ),
        ],
    )
}

#[test]
fn hint_flow_and_validation() {
    let svc = ReviewService;
    let e = rigorous();
    let pending = decode_pending(ReviewId(1), Some((1, 7, None, 0, None))).unwrap();
    assert_eq!(pending, PendingReview { word_id: WordId(7), sense_id: None, hints_used: 0 });
    assert_eq!(
        svc.hint(&e, pending.sense_id, pending.hints_used, 2).unwrap_err(),
        ReviewError::UnexpectedHint { requested: 2, expected: 1 }
    );
    match svc.hint(&e, None, 0, 1).unwrap() {
        Hint::Mask { text } => assert!(text.starts_with('r') && text.contains('_')),
        other => panic!("expected mask, got {other:?}"),
    }
    match svc.hint(&e, None, 1, 2).unwrap() {
        Hint::English { text } => assert!(text.contains("careful")),
        other => panic!("expected english, got {other:?}"),
    }
    match svc.hint(&e, None, 2, 3).unwrap() {
        Hint::Chinese { text } => assert!(!text.is_empty()),
        other => panic!("expected chinese, got {other:?}"),
    }
    assert_eq!(svc.hint(&e, None, 3, 0).unwrap_err(), ReviewError::InvalidHint(0));
    assert_eq!(svc.hint(&e, None, 3, 4).unwrap_err(), ReviewError::InvalidHint(4));
    assert_eq!(decode_pending(ReviewId(9999), None).unwrap_err(), ReviewError::NotFound(9999));
    assert_eq!(hint_action(1), "hint1");
    assert_eq!(hint_action(2), "hint2");
    assert_eq!(hint_action(3), "hint3");
}

#[test]
fn submit_correct_with_hints_updates_memory() {
    let svc = ReviewService;
    let e = entry(1, "meticulous", vec![sense(1, "very careful about small details", Some("一丝不苟的"), vec![])]);
    let g = svc.submit(&e, Some("meticulous".into()), 2);
    assert!(g.correct);
    assert_eq!(g.quality, RecallQuality::Hard);
    assert_eq!(submit_action(&g), "answer");
    // A completed review cannot be submitted again.
    let done = decode_pending(ReviewId(5), Some((5, 1, None, 2, Some("2026-09-01T12:00:00.000Z".into()))));
    assert_eq!(done.unwrap_err(), ReviewError::AlreadyCompleted(5));
}

#[test]
fn submit_wrong_or_reveal_is_forgotten() {
    let svc = ReviewService;
    let e = entry(2, "tentative", vec![sense(2, "not certain", Some("试探性的"), vec![])]);
    let g = svc.submit(&e, Some("careless".into()), 0);
    assert!(!g.correct);
    assert_eq!(g.quality, RecallQuality::Forgotten);
    assert_eq!(submit_action(&g), "answer");
    let g2 = svc.submit(&e, None, 0);
    assert!(!g2.correct);
    assert_eq!(g2.quality, RecallQuality::Forgotten);
    assert_eq!(submit_action(&g2), "reveal");
}

#[test]
fn typo_distance_one_accepted() {
    let e = entry(3, "subtle", vec![sense(3, "not obvious", Some("微妙的"), vec![])]);
    assert!(ReviewService.submit(&e, Some("Subtl".into()), 0).correct);
}

#[test]
fn review_keeps_prompt_sense_for_hints() {
    let svc = ReviewService;
    let e = elaborate();
    let s = &e.senses[1];
    let example_id = s.examples.first().map(|x| x.id);
    assert!(svc.start(&e, Some(s.id), example_id).is_ok());
    match svc.hint(&e, Some(s.id), 1, 2).unwrap() {
        Hint::English { text } => assert_eq!(text, s.english_definition),
        other => panic!("expected english hint, got {other:?}"),
    }
}

#[test]
fn start_validates_sense_and_example() {
    let svc = ReviewService;
    let e = elaborate();
    assert!(svc.start(&e, None, None).is_ok());
    assert!(svc.start(&e, None, Some(ExampleId(32))).is_ok());
    assert_eq!(svc.start(&e, Some(SenseId(99)), None), Err(ReviewError::NoWordData));
    assert_eq!(svc.start(&e, Some(SenseId(21)), Some(ExampleId(31))), Err(ReviewError::NoWordData));
    assert_eq!(svc.start(&e, None, Some(ExampleId(99))), Err(ReviewError::NoWordData));
}

#[test]
fn practice_check_and_hint_are_read_only() {
    let svc = ReviewService;
    let e = entry(1, "meticulous", vec![sense(1, "very careful about small details", Some("一丝不苟的"), vec![])]);
    assert!(svc.practice_check(&e, Some("meticulous".into())));
    assert!(!svc.practice_check(&e, Some("subtle".into())));
    assert!(svc.practice_check(&e, Some("meticulus".into())));
    assert!(!svc.practice_check(&e, None));
    assert!(matches!(svc.practice_hint(&e, None, 1).unwrap(), Hint::Mask { .. }));
    assert!(matches!(svc.practice_hint(&e, None, 2).unwrap(), Hint::English { .. }));
    assert!(matches!(svc.practice_hint(&e, None, 3).unwrap(), Hint::Chinese { .. }));
    assert_eq!(svc.practice_hint(&e, None, 0).unwrap_err(), ReviewError::InvalidHint(0));
    let bare = entry(9, "bare", vec![]);
    assert_eq!(svc.practice_hint(&bare, None, 1).unwrap_err(), ReviewError::NoWordData);
}

#[test]
fn group_is_read_only_and_capped_at_session_limit() {
    let words = [
        "meticulous", "subtle", "acquire", "elaborate", "inevitable", "reluctant", "compelling", "profound",
        "ambiguous", "resilient", "pragmatic",
    ];
    let entries: Vec<WordEntry> = words
        .iter()
        .enumerate()
        .map(|(i, w)| entry(i as i64 + 1, w, vec![sense(i as i64 + 100, "a definition", Some("释义"), vec![])]))
        .collect();
    let group = ReviewService.group(entries.clone());
    assert_eq!(group.len(), REVIEW_SESSION_LIMIT);
    assert_eq!(group.len(), 10, "group cap = 10");
    for g in &group {
        assert_eq!(g.entry.id, g.item.word_id);
        assert!(!g.entry.senses.is_empty());
        assert!(!g.item.prompt.trim().is_empty());
    }
    assert_eq!(ReviewService.group(entries[..1].to_vec()).len(), 1);
    assert!(ReviewService.group(Vec::new()).is_empty());
}

#[test]
fn group_fallback_uses_definitions_even_when_dictionary_examples_exist() {
    let entries = vec![rigorous(), elaborate()];
    let group = ReviewService.group(entries);
    assert_eq!(group.len(), 2);
    for g in &group {
        assert_eq!(g.item.kind, PromptKind::DefinitionZh);
        assert_eq!(g.item.source, PromptSource::Dictionary);
        assert!(g.item.example_id.is_none());
        assert!(!g.item.prompt.contains(&g.entry.word));
    }
}

#[test]
fn chinese_only_words_still_have_review_prompts() {
    let e = entry(1, "meticulous", vec![sense(1, "", Some("一丝不苟的"), vec![])]);
    let queue = ReviewService.queue(vec![e]);
    let item = queue.iter().find(|i| i.word_id == WordId(1)).unwrap();
    assert!(!item.prompt.is_empty());
    assert!(!item.prompt.contains("meticulous"));
}

#[test]
fn queue_contains_only_eligible_words_with_prompt() {
    let due = entry(1, "meticulous", vec![sense(1, "very careful about small details", Some("一丝不苟的"), vec![])]);
    let no_senses = entry(2, "empty", vec![]);
    let blank = entry(3, "blank", vec![sense(3, "  ", None, vec![])]);
    let items = ReviewService.queue(vec![due, no_senses, blank]);
    assert_eq!(items.len(), 1);
    assert_eq!(items[0].word_id, WordId(1));
    assert_eq!(items[0].kind, PromptKind::DefinitionZh);
    assert!(!items[0].prompt.contains("meticulous"), "{}", items[0].prompt);
}

#[test]
fn pending_hint_counts_read_back_clamped() {
    let p = decode_pending(ReviewId(3), Some((3, 4, Some(12), -5, None))).unwrap();
    assert_eq!(p.hints_used, 0);
    assert_eq!(p.sense_id, Some(SenseId(12)));
}
