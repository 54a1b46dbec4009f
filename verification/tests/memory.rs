use lexica::domain::{ComprehensionLevel, EncounterId, WordId};
use lexica::memory::events::{
    decode_encounter, decode_event, decode_events, decode_latest, decode_recent_visits, fmt_ts, parse_ts, EventRow,
};
use lexica::memory::model::{EncounterSource, MemoryEvent, MemoryStatus, RecallQuality};
use lexica::memory::projection::{due_after_visit, fold_projection, is_weak, visits_in_window, PriorityRule};
use lexica::memory::service::{
    comprehension_change, review_queue, summarize, visit_action, DueWord, MemoryError, StatsRow, VisitAction,
    QUEUE_ACTIVE_WINDOW_MS, REVIEW_SESSION_LIMIT, VISIT_MERGE_WINDOW_MS,
};

const DAY: i64 = 86_400_000;
/// 2026-09-01T12:00:00Z
const T0: i64 = 1_788_264_000_000;

fn ts(d: i64) -> i64 {
    T0 + (d - 1) * DAY
}

fn rule() -> PriorityRule {
    PriorityRule { weak_streak: 2, window_ms: 14 * DAY, visit_count: 3 }
}

fn visit(d: i64, level: ComprehensionLevel) -> MemoryEvent {
    MemoryEvent::Visit { at: ts(d), level }
}

fn review(d: i64, quality: RecallQuality) -> MemoryEvent {
    MemoryEvent::ReviewDone { at: ts(d), quality }
}

#[test]
fn fold_empty_returns_none() {
    assert!(fold_projection(&Vec::new(), rule()).is_none());
}

#[test]
fn fold_is_deterministic() {
    let events = vec![
        visit(1, ComprehensionLevel::ChineseDefinition),
        review(3, RecallQuality::Good),
        visit(5, ComprehensionLevel::EnglishDefinition),
        review(7, RecallQuality::Hard),
    ];
    let a = fold_projection(&events, rule()).unwrap();
    let b = fold_projection(&events, rule()).unwrap();
    assert_eq!(a, b);
    assert_eq!(a.tally.visit_count, 2);
    assert_eq!(a.tally.review_count, 2);
    assert_eq!(a.tally.first_visit_at, ts(1));
    assert_eq!(a.tally.last_review_at, Some(ts(7)));
}

#[test]
fn repeated_lookups_flag_high_priority() {
    let events = vec![
        visit(1, ComprehensionLevel::ChineseDefinition),
        visit(3, ComprehensionLevel::EnglishDefinition),
        visit(5, ComprehensionLevel::ChineseDefinition),
        visit(9, ComprehensionLevel::EnglishDefinition),
    ];
    let s = fold_projection(&events, rule()).unwrap();
    assert!(s.high_priority);
    assert!(s.tally.weak_streak >= 2 || s.tally.visit_count >= 3);

    let mut mastered = events.clone();
    mastered.push(review(10, RecallQuality::Good));
    assert!(!fold_projection(&mastered, rule()).unwrap().high_priority);

    let single = vec![visit(1, ComprehensionLevel::ChineseDefinition)];
    assert!(!fold_projection(&single, rule()).unwrap().high_priority);
}

#[test]
fn weak_streak_flag_and_reset() {
    let s = fold_projection(
        &vec![visit(1, ComprehensionLevel::ChineseDefinition), visit(3, ComprehensionLevel::Unknown)],
        rule(),
    )
    .unwrap();
    assert_eq!(s.tally.weak_streak, 2);
    assert!(s.high_priority);

    let s2 = fold_projection(
        &vec![
            visit(1, ComprehensionLevel::ChineseDefinition),
            visit(3, ComprehensionLevel::Unknown),
            visit(12, ComprehensionLevel::Context),
        ],
        rule(),
    )
    .unwrap();
    assert_eq!(s2.tally.weak_streak, 0);
}

#[test]
fn trajectory_chinese_english_context_improves() {
    let s = fold_projection(
        &vec![
            visit(1, ComprehensionLevel::ChineseDefinition),
            visit(3, ComprehensionLevel::EnglishDefinition),
            visit(12, ComprehensionLevel::Context),
        ],
        rule(),
    )
    .unwrap();
    assert_eq!(s.tally.weak_streak, 0);
    assert_eq!(s.tally.last_reinforcement_at, Some(ts(12)));
    assert_eq!(s.tally.visit_count, 3);
}

#[test]
fn forgotten_counts_a_lapse() {
    let s = fold_projection(
        &vec![
            visit(1, ComprehensionLevel::ChineseDefinition),
            review(2, RecallQuality::Good),
            review(3, RecallQuality::Forgotten),
            review(4, RecallQuality::Good),
        ],
        rule(),
    )
    .unwrap();
    assert_eq!(s.tally.review_count, 3);
    assert_eq!(s.tally.lapse_count, 1);
}

#[test]
fn weak_or_english_visit_never_extends_due() {
    let due_before = Some(ts(6));
    // English: neutral.
    assert_eq!(due_after_visit(ComprehensionLevel::EnglishDefinition, due_before, ts(4), 5 * DAY, DAY), due_before);
    // Chinese: only earlier.
    let after = due_after_visit(ComprehensionLevel::ChineseDefinition, due_before, ts(4), 5 * DAY, 10 * DAY);
    assert!(after.unwrap() <= due_before.unwrap());
    let after = due_after_visit(ComprehensionLevel::Unknown, due_before, ts(4), 5 * DAY, DAY / 2);
    assert_eq!(after, Some(ts(4) + DAY / 2));
    // Many weak visits in a row never move it later.
    let mut due = due_before;
    for day in [4, 6, 8, 10] {
        due = due_after_visit(ComprehensionLevel::ChineseDefinition, due, ts(day), 5 * DAY, DAY);
        assert!(due.unwrap() <= due_before.unwrap());
    }
    // Context reinforces from the visit.
    assert_eq!(due_after_visit(ComprehensionLevel::Context, due_before, ts(12), 3 * DAY, DAY), Some(ts(15)));
    assert!(is_weak(ComprehensionLevel::Unknown) && !is_weak(ComprehensionLevel::EnglishDefinition));
}

#[test]
fn visits_in_window_needs_enough_close_visits() {
    let times = vec![ts(1), ts(3), ts(5), ts(30)];
    assert!(visits_in_window(&times, 14 * DAY, 3));
    assert!(!visits_in_window(&times, 3 * DAY, 3));
    assert!(visits_in_window(&times, 4 * DAY, 3));
    assert!(!visits_in_window(&vec![ts(1), ts(2)], 14 * DAY, 3));
    assert!(!visits_in_window(&times, 14 * DAY, 0));
}

#[test]
fn visits_merge_and_escalate_end_to_end() {
    let id = EncounterId(7);
    assert_eq!(visit_action(None, T0), VisitAction::Insert);
    assert_eq!(visit_action(Some((id, T0)), T0 + 60_000), VisitAction::Merge(id));
    assert_eq!(visit_action(Some((id, T0)), T0 + VISIT_MERGE_WINDOW_MS), VisitAction::Insert);
    assert_eq!(visit_action(Some((id, T0)), T0 - 1), VisitAction::Insert);

    assert_eq!(
        comprehension_change(id, ComprehensionLevel::Unknown, Some(id), ComprehensionLevel::Context),
        Ok(true)
    );
    assert_eq!(
        comprehension_change(id, ComprehensionLevel::Context, Some(id), ComprehensionLevel::EnglishDefinition),
        Ok(true)
    );
    assert_eq!(
        comprehension_change(id, ComprehensionLevel::EnglishDefinition, Some(id), ComprehensionLevel::EnglishDefinition),
        Ok(false)
    );
    assert_eq!(
        comprehension_change(id, ComprehensionLevel::ChineseDefinition, Some(id), ComprehensionLevel::Context),
        Err(MemoryError::NotAnEscalation { from: "chinese".into(), to: "context".into() })
    );
    assert_eq!(
        comprehension_change(id, ComprehensionLevel::Unknown, Some(EncounterId(8)), ComprehensionLevel::Context),
        Err(MemoryError::NotLatestEncounter(7))
    );
}

fn row(status: MemoryStatus, due: Option<i64>, visit: Option<i64>, ignored: bool, high: bool) -> StatsRow {
    StatsRow { status, high_priority: high, next_review_at: due, last_visit_at: visit, last_review_at: None, ignored }
}

#[test]
fn stats_buckets_and_due_count() {
    let now = ts(100);
    let rows = vec![
        row(MemoryStatus::Learning, Some(now - DAY), Some(now - 2 * DAY), false, true),
        row(MemoryStatus::Familiar, Some(now + DAY), Some(now - DAY), false, false),
        row(MemoryStatus::Stable, Some(now - DAY), Some(now - QUEUE_ACTIVE_WINDOW_MS - DAY), false, false),
        row(MemoryStatus::Learning, Some(now - DAY), Some(now - DAY), true, true),
    ];
    let s = summarize(&rows, now);
    assert_eq!(s.encountered, 4);
    assert_eq!(s.learning, 1);
    assert_eq!(s.familiar, 1);
    assert_eq!(s.stable, 1);
    assert_eq!(s.ignored, 1);
    assert_eq!(s.high_priority, 1);
    assert_eq!(s.due_now, 1);
}

#[test]
fn review_queue_is_capped_at_the_session_limit() {
    let due: Vec<DueWord> =
        (1..=11).map(|i| DueWord { word_id: WordId(i), high_priority: false, next_review_at: None }).collect();
    let q = review_queue(&due);
    assert_eq!(q.len(), REVIEW_SESSION_LIMIT);
    assert_eq!(q.len(), 10);
    assert_eq!(q[0], WordId(1));
    assert_eq!(review_queue(&due[..3].to_vec()).len(), 3);
}

#[test]
fn stored_events_read_back() {
    let rows = vec![
        EventRow { kind: "visit".into(), at: "2026-09-01T12:00:00.000Z".into(), detail: "chinese".into() },
        EventRow { kind: "review".into(), at: "2026-09-03T12:00:00.000Z".into(), detail: "good".into() },
    ];
    let events = decode_events(&rows).unwrap();
    assert_eq!(
        events,
        vec![
            MemoryEvent::Visit { at: ts(1), level: ComprehensionLevel::ChineseDefinition },
            MemoryEvent::ReviewDone { at: ts(3), quality: RecallQuality::Good },
        ]
    );
    let bad = EventRow { kind: "visit".into(), at: "yesterday".into(), detail: "chinese".into() };
    assert_eq!(decode_event(&bad), Err(MemoryError::CorruptEvent("bad timestamp: yesterday".into())));
    let bad_kind = EventRow { kind: "note".into(), at: "2026-09-01T12:00:00.000Z".into(), detail: "".into() };
    assert_eq!(decode_event(&bad_kind), Err(MemoryError::CorruptEvent("bad kind: note".into())));
    let mut with_bad = rows.clone();
    with_bad.push(EventRow { kind: "review".into(), at: "2026-09-04T12:00:00.000Z".into(), detail: "meh".into() });
    assert_eq!(decode_events(&with_bad), Err(MemoryError::CorruptEvent("bad quality: meh".into())));
}

#[test]
fn timestamps_are_written_and_read_back() {
    let text = fmt_ts(T0).unwrap();
    assert_eq!(text, "2026-09-01T12:00:00.000Z");
    assert_eq!(parse_ts(&text), Some(T0));
    assert_eq!(parse_ts("2026-09-01T14:00:00.500+02:00"), Some(T0 + 500));
    assert_eq!(parse_ts("not a time"), None);
}

#[test]
fn encounter_rows_read_back() {
    let e = decode_encounter(EncounterId(3), 9, "2026-09-01T12:00:00.000Z", "lookup", "english").unwrap();
    assert_eq!(e.word_id, WordId(9));
    assert_eq!(e.timestamp, T0);
    assert_eq!(e.source, EncounterSource::Lookup);
    assert_eq!(e.comprehension_level, ComprehensionLevel::EnglishDefinition);
    assert!(decode_encounter(EncounterId(3), 9, "2026-09-01T12:00:00.000Z", "web", "english").is_none());
    assert_eq!(decode_latest(Some((4, "2026-09-01T12:00:00.000Z".into()))), Some((EncounterId(4), T0)));
    assert_eq!(decode_latest(Some((4, "bad".into()))), None);
    let visits = decode_recent_visits(&vec![
        (1, "2026-09-01T12:00:00.000Z".to_string(), "context".to_string()),
        (2, "bad".to_string(), "context".to_string()),
        (3, "2026-09-02T12:00:00.000Z".to_string(), "nope".to_string()),
    ]);
    assert_eq!(visits.len(), 1);
    assert_eq!(visits[0].word_id, WordId(1));
}

#[test]
fn comprehension_only_moves_towards_more_help() {
    let id = EncounterId(1);
    let mut level = ComprehensionLevel::Context;
    for req in [
        ComprehensionLevel::EnglishDefinition,
        ComprehensionLevel::Context,
        ComprehensionLevel::ChineseDefinition,
        ComprehensionLevel::EnglishDefinition,
    ] {
        match comprehension_change(id, level, Some(id), req) {
            Ok(true) => level = req,
            Ok(false) => {}
            Err(_) => {}
        }
        assert!(level.help_rank() >= ComprehensionLevel::Context.help_rank());
    }
    assert_eq!(level, ComprehensionLevel::ChineseDefinition);
}
