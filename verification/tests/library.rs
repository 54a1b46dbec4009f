use lexica::commands::{fading_words, recent_words};
use lexica::database::pending_migrations;
use lexica::dictionary::model::WordBrief;
use lexica::domain::{ComprehensionLevel, WordId};
use lexica::error::{error_code, AppError, DbError, DictionaryError};
use lexica::library::{activity_days, activity_window, check_note, ACTIVITY_DAYS};
use lexica::memory::model::RecentVisit;
use lexica::memory::service::{DueWord, MemoryError};
use lexica::review::service::ReviewError;

/// 2026-09-13T10:00:00Z
const NOW: i64 = 1_789_293_600_000;

#[test]
fn activity_uses_local_dates_and_counts_only_completed_reviews() {
    // A lookup at 2026-09-12T17:00Z is on 2026-09-13 eight hours ahead of UTC;
    // the started but unfinished review counts nowhere.
    let w = activity_window(NOW, 480);
    assert_eq!(w.shift, "480 minutes");
    assert_eq!(w.since, "2026-08-29T10:00:00.000Z");
    let days = activity_days(w.first_day, &vec![("2026-09-13".to_string(), 1, 0)]);
    assert_eq!(days.len(), 14);
    assert_eq!(days[13].date, "2026-09-13");
    assert_eq!(days[13].lookups, 1);
    assert_eq!(days[13].reviews, 0);

    let w0 = activity_window(NOW, 0);
    let days0 = activity_days(w0.first_day, &vec![("2026-09-12".to_string(), 1, 0)]);
    assert_eq!(days0[12].lookups, 1);
    assert_eq!(days0[0].date, "2026-08-31");
    assert_eq!(days0.len() as i64, ACTIVITY_DAYS);
}

#[test]
fn activity_offsets_are_limited_and_days_go_back() {
    // 2026-09-13T10:00Z minus 11 hours is still 2026-09-12 locally; offsets
    // beyond ±14 hours are cut.
    let w = activity_window(NOW, -660);
    let days = activity_days(w.first_day, &Vec::new());
    assert_eq!(days[13].date, "2026-09-12");
    assert!(days.iter().all(|d| d.lookups == 0 && d.reviews == 0));
    assert_eq!(activity_window(NOW, 5000).shift, "840 minutes");
    assert_eq!(activity_window(NOW, -5000).shift, "-840 minutes");
    // Before 1970 the local day still rounds down.
    let w = activity_window(-1, 0);
    assert_eq!(activity_days(w.first_day, &Vec::new())[13].date, "1969-12-31");
}

#[test]
fn notes_persist_filter_and_reject_unknown_words() {
    assert!(check_note("阅读笔记 100% _").is_ok());
    assert!(check_note("").is_ok());
    assert!(check_note(&"a".repeat(10000)).is_ok());
    assert_eq!(
        check_note(&"a".repeat(10001)),
        Err(DbError::Io("A note may not exceed 10,000 characters".into()))
    );
    // Characters, not bytes, are counted.
    assert!(check_note(&"笔".repeat(10000)).is_ok());
}

fn brief(word: &str) -> WordBrief {
    WordBrief { word: word.into(), display: word.to_uppercase(), phonetic: None }
}

#[test]
fn recent_and_fading_lists_join_head_words() {
    let briefs = vec![(WordId(1), brief("one")), (WordId(3), brief("three"))];
    let visits = vec![
        RecentVisit { word_id: WordId(3), visited_at: 30, comprehension_level: ComprehensionLevel::Context },
        RecentVisit { word_id: WordId(2), visited_at: 20, comprehension_level: ComprehensionLevel::Unknown },
        RecentVisit { word_id: WordId(1), visited_at: 10, comprehension_level: ComprehensionLevel::Unknown },
    ];
    let recent = recent_words(&visits, &briefs);
    assert_eq!(recent.len(), 2);
    assert_eq!(recent[0].word, "three");
    assert_eq!(recent[0].display, "THREE");
    assert_eq!(recent[0].visited_at, 30);
    assert_eq!(recent[1].word, "one");

    let due = vec![
        DueWord { word_id: WordId(1), high_priority: true, next_review_at: Some(5) },
        DueWord { word_id: WordId(2), high_priority: false, next_review_at: None },
        DueWord { word_id: WordId(3), high_priority: false, next_review_at: None },
    ];
    let fading = fading_words(&due, &briefs, 20);
    assert_eq!(fading.len(), 2);
    assert!(fading[0].high_priority);
    assert_eq!(fading[0].next_review_at, Some(5));
    assert_eq!(fading_words(&due, &briefs, 1).len(), 1);
    assert!(fading_words(&due, &briefs, 0).is_empty());
}

#[test]
fn errors_have_codes_and_messages() {
    assert_eq!(error_code(&AppError::LockPoisoned), "lock_poisoned");
    assert_eq!(error_code(&AppError::Network("x".into())), "network");
    assert_eq!(
        AppError::Memory(MemoryError::EncounterNotFound(42)).message(),
        "memory error: encounter 42 not found"
    );
    assert_eq!(
        AppError::Review(ReviewError::UnexpectedHint { requested: 2, expected: 1 }).message(),
        "review error: expected hint 1, got 2"
    );
    assert_eq!(
        AppError::Review(ReviewError::Dictionary(DictionaryError::InvalidSource("no table".into()))).message(),
        "review error: dictionary error: invalid dictionary source: no table"
    );
    assert_eq!(AppError::Db(DbError::Io("disk".into())).message(), "database error: io error: disk");
    assert_eq!(
        AppError::Memory(MemoryError::NotAnEscalation { from: "context".into(), to: "unknown".into() }).message(),
        "memory error: comprehension cannot change from context to unknown"
    );
    assert_eq!(AppError::Io("gone".into()).message(), "I/O error: gone");
    assert_eq!(error_code(&AppError::Dictionary(DictionaryError::Data("x".into()))), "dictionary");
}

#[test]
fn migrations_apply_only_newer_versions() {
    assert_eq!(pending_migrations(0, 4), vec![0, 1, 2, 3]);
    assert_eq!(pending_migrations(2, 4), vec![2, 3]);
    assert!(pending_migrations(4, 4).is_empty());
    assert!(pending_migrations(9, 4).is_empty());
    assert_eq!(pending_migrations(-3, 2), vec![0, 1]);
}

#[test]
fn error_messages_write_numbers_in_decimal() {
    assert_eq!(
        AppError::Memory(MemoryError::EncounterNotFound(-7)).message(),
        "memory error: encounter -7 not found"
    );
    assert_eq!(
        AppError::Memory(MemoryError::NotLatestEncounter(0)).message(),
        "memory error: encounter 0 is not the latest for its word"
    );
    assert_eq!(
        AppError::Review(ReviewError::NotFound(i64::MIN)).message(),
        "review error: review -9223372036854775808 not found"
    );
    assert_eq!(
        AppError::Review(ReviewError::InvalidHint(u32::MAX)).message(),
        "review error: invalid hint number 4294967295"
    );
    assert_eq!(
        AppError::Review(ReviewError::AlreadyCompleted(1_000_000)).message(),
        "review error: review 1000000 already completed"
    );
}
