//! The personal vocabulary: notes and bookmarks, the library page, and the
//! fourteen-day activity chart.

use vstd::prelude::*;
use crate::error::DbError;
use crate::memory::events::{fmt_ts, ts_text};
use crate::text::{chars_of, decimal, i64_text, str_equals};

verus! {

/// A note may hold at most this many characters.
pub const NOTE_MAX_CHARS: usize = 10_000;

/// The library shows this many words per page.
pub const PAGE_SIZE: u32 = 24;

/// The activity chart covers this many days, today included.
pub const ACTIVITY_DAYS: i64 = 14;

/// The user's own data about a word.
#[derive(Clone, Debug, Default)]
pub struct WordNote {
    pub bookmarked: bool,
    pub note: String,
    pub ignored: bool,
}

/// One word of the library page.
#[derive(Clone, Debug)]
pub struct LibraryWord {
    pub id: i64,
    pub word: String,
    pub display: String,
    pub phonetic: Option<String>,
    pub definition: String,
    pub status: String,
    pub bookmarked: bool,
    pub note: String,
    pub visit_count: i64,
    pub next_review_at: Option<String>,
}

/// A page of the library and the number of words that match the filter.
#[derive(Clone, Debug)]
pub struct LibraryPage {
    pub words: Vec<LibraryWord>,
    pub total: i64,
}

/// One day of the activity chart.
#[derive(Clone, Debug)]
pub struct ActivityDay {
    pub date: String,
    pub lookups: i64,
    pub reviews: i64,
}

/// A note longer than the limit is refused before anything is written.
pub fn check_note(note: &str) -> (r: Result<(), DbError>)
    ensures
        r is Ok <==> note@.len() <= NOTE_MAX_CHARS,
        r matches Err(e) ==> (e matches DbError::Io(m) && m@ == "A note may not exceed 10,000 characters"@),
{
    if chars_of(note).len() > NOTE_MAX_CHARS {
        Err(DbError::Io("A note may not exceed 10,000 characters".to_string()))
    } else {
        Ok(())
    }
}

/// The offset of local time from UTC, limited to ±14 hours.
pub open spec fn clamped_offset(minutes: i32) -> int {
    if minutes < -840 {
        -840
    } else if minutes > 840 {
        840
    } else {
        minutes as int
    }
}

/// Milliseconds in a day.
pub const DAY_MS: i64 = 86_400_000;

/// The local calendar day (days since 1970-01-01) of a time, `offset` minutes
/// ahead of UTC.
pub open spec fn local_day(now_ms: int, offset: int) -> int {
    (now_ms + offset * 60_000) / (DAY_MS as int)
}

/// The text chrono gives for the calendar day `day` days after 1970-01-01 ("YYYY-MM-DD").
pub uninterp spec fn date_text(day: int) -> Seq<char>;

/// `NaiveDate::from_epoch_days` then `to_string`; the text is named by `date_text`.
/// Days within ±95,000,000 of 1970 are all in chrono's range (years ±262,142).
#[verifier::external_body]
fn epoch_day_text(day: i32) -> (r: String)
    requires
        -95_000_000 <= day <= 95_000_000,
    ensures
        r@ == date_text(day as int),
{
    chrono::NaiveDate::from_epoch_days(day).map(|d| d.to_string()).unwrap_or_default()
}

/// What the activity query needs: the SQLite date modifier for the offset, the
/// earliest time counted (15 days before now, as stored text), and the first day
/// of the chart.
#[derive(Clone, Debug)]
pub struct ActivityWindow {
    pub shift: String,
    pub since: String,
    pub first_day: i64,
}

/// The window of the activity chart for a time and a local offset: the offset is
/// limited to ±14 hours; the chart ends on the local day of `now_ms`.
pub fn activity_window(now_ms: i64, offset_minutes: i32) -> (r: ActivityWindow)
    requires
        -7_900_000_000_000_000 <= now_ms <= 7_900_000_000_000_000,
    ensures
        r.shift@ == decimal(clamped_offset(offset_minutes)) + " minutes"@,
        r.since@ == ts_text((now_ms - 15 * DAY_MS) as i64),
        r.first_day == local_day(now_ms as int, clamped_offset(offset_minutes)) - (ACTIVITY_DAYS - 1),
{
    let offset: i64 = if offset_minutes < -840 {
        -840
    } else if offset_minutes > 840 {
        840
    } else {
        offset_minutes as i64
    };
    let mut shift = i64_text(offset);
    shift.append(" minutes");
    let local = now_ms + offset * 60_000;
    let day = if local >= 0 {
        local / DAY_MS
    } else {
        let q = (-local) / DAY_MS;
        if q * DAY_MS == -local {
            -q
        } else {
            -q - 1
        }
    };
    proof {
        let l = local as int;
        if l < 0 {
            let m = -l;
            vstd::arithmetic::div_mod::lemma_fundamental_div_mod(m, 86_400_000);
            let q = m / 86_400_000;
            let rem = m % 86_400_000;
            if q * 86_400_000 == m {
                vstd::arithmetic::div_mod::lemma_fundamental_div_mod_converse(l, 86_400_000, -q, 0);
            } else {
                vstd::arithmetic::div_mod::lemma_fundamental_div_mod_converse(
                    l,
                    86_400_000,
                    -q - 1,
                    86_400_000 - rem,
                );
            }
        }
    }
    let since = match fmt_ts(now_ms - 15 * DAY_MS) {
        Some(t) => t,
        None => String::new(),
    };
    ActivityWindow { shift, since, first_day: day - (ACTIVITY_DAYS - 1) }
}

/// The counts of a day in the grouped query rows (date, lookups, reviews): the
/// first row of that date, or none.
pub open spec fn day_counts(rows: Seq<(String, i64, i64)>, date: Seq<char>) -> (i64, i64)
    decreases rows.len(),
{
    if rows.len() == 0 {
        (0, 0)
    } else if rows[0].0@ == date {
        (rows[0].1, rows[0].2)
    } else {
        day_counts(rows.drop_first(), date)
    }
}

fn counts_of(rows: &Vec<(String, i64, i64)>, date: &String) -> (r: (i64, i64))
    ensures
        r == day_counts(rows@, date@),
{
    let mut i: usize = 0;
    assert(rows@.subrange(0, rows@.len() as int) =~= rows@);
    while i < rows.len()
        invariant
            i <= rows.len(),
            day_counts(rows@, date@) == day_counts(rows@.subrange(i as int, rows@.len() as int), date@),
        decreases rows.len() - i,
    {
        assert(rows@.subrange(i as int, rows@.len() as int).drop_first() =~= rows@.subrange(
            i + 1,
            rows@.len() as int,
        ));
        if str_equals(rows[i].0.as_str(), date.as_str()) {
            return (rows[i].1, rows[i].2);
        }
        i += 1;
    }
    (0, 0)
}

/// The fourteen days of the chart from `first_day` on, each with its date and the
/// counts of the rows of that date (none: zero lookups and zero reviews).
pub fn activity_days(first_day: i64, rows: &Vec<(String, i64, i64)>) -> (r: Vec<ActivityDay>)
    requires
        -94_000_000 <= first_day <= 94_000_000,
    ensures
        r@.len() == ACTIVITY_DAYS,
        forall|k: int| 0 <= k < ACTIVITY_DAYS ==> {
            &&& (#[trigger] r@[k]).date@ == date_text(first_day + k)
            &&& (r@[k].lookups, r@[k].reviews) == day_counts(rows@, date_text(first_day + k))
        },
{
    let mut out: Vec<ActivityDay> = Vec::new();
    let mut k: i64 = 0;
    while k < ACTIVITY_DAYS
        invariant
            0 <= k <= ACTIVITY_DAYS,
            -94_000_000 <= first_day <= 94_000_000,
            out@.len() == k,
            forall|j: int| 0 <= j < k ==> {
                &&& (#[trigger] out@[j]).date@ == date_text(first_day + j)
                &&& (out@[j].lookups, out@[j].reviews) == day_counts(rows@, date_text(first_day + j))
            },
        decreases ACTIVITY_DAYS - k,
    {
        let date = epoch_day_text((first_day + k) as i32);
        let (lookups, reviews) = counts_of(rows, &date);
        out.push(ActivityDay { date, lookups, reviews });
        k += 1;
    }
    out
}

} // verus!
