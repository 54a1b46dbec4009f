//! Reading stored event rows (kind, timestamp, detail) back into memory events.

use vstd::prelude::*;
use crate::domain::{level_of_name, ComprehensionLevel};
use crate::text::str_equals;
use super::model::{quality_of_name, source_of_name, Encounter, EncounterSource, MemoryEvent, RecallQuality, RecentVisit};
use crate::domain::{EncounterId, WordId};
use super::service::MemoryError;

verus! {

/// The Unix milliseconds of an RFC 3339 timestamp as chrono parses it, if it parses.
pub uninterp spec fn parsed_millis(s: Seq<char>) -> Option<i64>;

/// Parses an RFC 3339 timestamp with chrono (`DateTime::parse_from_rfc3339`, in UTC)
/// and gives its Unix milliseconds; the result is named by `parsed_millis`.
#[verifier::external_body]
pub fn parse_ts(s: &str) -> (r: Option<i64>)
    ensures
        r == parsed_millis(s@),
{
    chrono::DateTime::parse_from_rfc3339(s).ok().map(|d| d.with_timezone(&chrono::Utc).timestamp_millis())
}

/// The RFC 3339 text (UTC, milliseconds, "Z") that chrono writes for a time.
pub uninterp spec fn ts_text(ms: i64) -> Seq<char>;

/// Writes Unix milliseconds as RFC 3339 with chrono (`DateTime::from_timestamp_millis`,
/// then `to_rfc3339_opts(SecondsFormat::Millis, true)`); `None` outside chrono's range.
/// Claims: the text is the one named by `ts_text`; within about ±250,000 years the time
/// is in range; for the years 1970 to 9999 (four-digit years) the text parses back
/// to the same milliseconds.
#[verifier::external_body]
pub fn fmt_ts(ms: i64) -> (r: Option<String>)
    ensures
        r matches Some(t) ==> t@ == ts_text(ms),
        r is Some || ms < -8_000_000_000_000_000 || ms > 8_000_000_000_000_000,
        r matches Some(t) ==> (ms <= 253_402_300_799_999 && ms >= 0 ==> parsed_millis(t@) == Some(ms)),
{
    chrono::DateTime::from_timestamp_millis(ms).map(|d| d.to_rfc3339_opts(chrono::SecondsFormat::Millis, true))
}

/// A stored event row: kind ("visit" or "review"), time, and level or quality.
#[derive(Clone, Debug)]
pub struct EventRow {
    pub kind: String,
    pub at: String,
    pub detail: String,
}

/// The reading of one row: a bad timestamp, level, quality or kind is a corrupt event.
pub open spec fn event_of_row(kind: Seq<char>, at: Seq<char>, detail: Seq<char>) -> Option<MemoryEvent> {
    match parsed_millis(at) {
        None => None,
        Some(t) => if kind == "visit"@ {
            match level_of_name(detail) {
                Some(level) => Some(MemoryEvent::Visit { at: t, level }),
                None => None,
            }
        } else if kind == "review"@ {
            match quality_of_name(detail) {
                Some(quality) => Some(MemoryEvent::ReviewDone { at: t, quality }),
                None => None,
            }
        } else {
            None
        },
    }
}

/// The events of the first `n` rows, when all of them read.
pub open spec fn events_of_rows(rows: Seq<EventRow>, n: int) -> Option<Seq<MemoryEvent>>
    decreases n,
{
    if n <= 0 {
        Some(Seq::empty())
    } else {
        match events_of_rows(rows, n - 1) {
            None => None,
            Some(prev) => match event_of_row(rows[n - 1].kind@, rows[n - 1].at@, rows[n - 1].detail@) {
                Some(e) => Some(prev.push(e)),
                None => None,
            },
        }
    }
}

fn message(prefix: &str, value: &String) -> (r: String)
    ensures
        r@ == prefix@ + value@,
{
    let mut s = prefix.to_string();
    s.append(value.as_str());
    s
}

/// Reads one row; the error names what was bad ("bad timestamp: …", "bad level: …",
/// "bad quality: …", "bad kind: …").
pub fn decode_event(row: &EventRow) -> (r: Result<MemoryEvent, MemoryError>)
    ensures
        match event_of_row(row.kind@, row.at@, row.detail@) {
            Some(e) => r == Ok::<MemoryEvent, MemoryError>(e),
            None => r matches Err(MemoryError::CorruptEvent(_)),
        },
{
    let at = match parse_ts(row.at.as_str()) {
        Some(t) => t,
        None => return Err(MemoryError::CorruptEvent(message("bad timestamp: ", &row.at))),
    };
    if str_equals(row.kind.as_str(), "visit") {
        match ComprehensionLevel::from_db(row.detail.as_str()) {
            Some(level) => Ok(MemoryEvent::Visit { at, level }),
            None => Err(MemoryError::CorruptEvent(message("bad level: ", &row.detail))),
        }
    } else if str_equals(row.kind.as_str(), "review") {
        match RecallQuality::from_db(row.detail.as_str()) {
            Some(quality) => Ok(MemoryEvent::ReviewDone { at, quality }),
            None => Err(MemoryError::CorruptEvent(message("bad quality: ", &row.detail))),
        }
    } else {
        Err(MemoryError::CorruptEvent(message("bad kind: ", &row.kind)))
    }
}

/// Reads the rows of a word's stream in order; the first bad row fails the whole read.
pub fn decode_events(rows: &Vec<EventRow>) -> (r: Result<Vec<MemoryEvent>, MemoryError>)
    ensures
        match events_of_rows(rows@, rows@.len() as int) {
            Some(es) => r matches Ok(v) && v@ == es,
            None => r matches Err(MemoryError::CorruptEvent(_)),
        },
{
    let mut events: Vec<MemoryEvent> = Vec::new();
    let mut i: usize = 0;
    while i < rows.len()
        invariant
            i <= rows@.len(),
            events_of_rows(rows@, i as int) == Some(events@),
        decreases rows.len() - i,
    {
        match decode_event(&rows[i]) {
            Ok(e) => events.push(e),
            Err(err) => {
                proof {
                    lemma_events_fail_stays(rows@, (i + 1) as int, rows@.len() as int);
                }
                return Err(err);
            },
        }
        i += 1;
    }
    Ok(events)
}

proof fn lemma_events_fail_stays(rows: Seq<EventRow>, m: int, n: int)
    requires
        0 < m <= n,
        events_of_rows(rows, m) is None,
    ensures
        events_of_rows(rows, n) is None,
    decreases n - m,
{
    if n > m {
        lemma_events_fail_stays(rows, m, n - 1);
    }
}

// ── visits ────────────────────────────────────────────────────────

/// An encounter row read back: `None` when its time, source or level does not read.
pub open spec fn encounter_of_row(id: EncounterId, word_id: i64, at: Seq<char>, source: Seq<char>, level: Seq<char>) -> Option<Encounter> {
    match (parsed_millis(at), source_of_name(source), level_of_name(level)) {
        (Some(t), Some(src), Some(lv)) => Some(
            Encounter { id, word_id: WordId(word_id), timestamp: t, source: src, comprehension_level: lv },
        ),
        _ => None,
    }
}

/// Reads an encounter row (see `encounter_of_row`).
pub fn decode_encounter(id: EncounterId, word_id: i64, at: &str, source: &str, level: &str) -> (r: Option<Encounter>)
    ensures
        r == encounter_of_row(id, word_id, at@, source@, level@),
{
    let t = parse_ts(at)?;
    let src = EncounterSource::from_db(source)?;
    let lv = ComprehensionLevel::from_db(level)?;
    Some(Encounter { id, word_id: WordId(word_id), timestamp: t, source: src, comprehension_level: lv })
}

/// The latest visit of a word read back: its id and time, when the time reads.
pub fn decode_latest(row: Option<(i64, String)>) -> (r: Option<(EncounterId, i64)>)
    ensures
        match row {
            None => r is None,
            Some((id, at)) => match parsed_millis(at@) {
                Some(t) => r == Some((EncounterId(id), t)),
                None => r is None,
            },
        },
{
    match row {
        None => None,
        Some((id, at)) => match parse_ts(at.as_str()) {
            Some(t) => Some((EncounterId(id), t)),
            None => None,
        },
    }
}

/// A recent-visit row (word id, time, level) read back, when time and level read.
pub open spec fn recent_of_row(r: (i64, String, String)) -> Option<RecentVisit> {
    match (parsed_millis(r.1@), level_of_name(r.2@)) {
        (Some(t), Some(lv)) => Some(RecentVisit { word_id: WordId(r.0), visited_at: t, comprehension_level: lv }),
        _ => None,
    }
}

/// The recent visits of the first `n` rows: the rows that read, in order.
pub open spec fn recent_of_rows(rows: Seq<(i64, String, String)>, n: int) -> Seq<RecentVisit>
    decreases n,
{
    if n <= 0 {
        Seq::empty()
    } else {
        match recent_of_row(rows[n - 1]) {
            Some(v) => recent_of_rows(rows, n - 1).push(v),
            None => recent_of_rows(rows, n - 1),
        }
    }
}

/// Reads the recent-visit rows in order; a row that does not read is skipped.
pub fn decode_recent_visits(rows: &Vec<(i64, String, String)>) -> (r: Vec<RecentVisit>)
    ensures
        r@ == recent_of_rows(rows@, rows@.len() as int),
{
    let mut out: Vec<RecentVisit> = Vec::new();
    let mut i: usize = 0;
    while i < rows.len()
        invariant
            i <= rows.len(),
            out@ == recent_of_rows(rows@, i as int),
        decreases rows.len() - i,
    {
        let row = &rows[i];
        match (parse_ts(row.1.as_str()), ComprehensionLevel::from_db(row.2.as_str())) {
            (Some(t), Some(lv)) => out.push(RecentVisit { word_id: WordId(row.0), visited_at: t, comprehension_level: lv }),
            _ => {},
        }
        i += 1;
    }
    out
}

} // verus!
