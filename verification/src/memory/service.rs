//! The visit policy (merge window, monotone escalation), the statistics summary
//! and the review session cap.

use vstd::prelude::*;
use crate::domain::{ComprehensionLevel, EncounterId, WordId, level_name, level_rank};
use super::model::MemoryStatus;

verus! {

/// Repeated lookups of one word within 30 minutes merge into one visit.
pub const VISIT_MERGE_WINDOW_MS: i64 = 1_800_000;

/// The review queue only shows words with activity in the last 60 days.
pub const QUEUE_ACTIVE_WINDOW_MS: i64 = 5_184_000_000;

/// At most this many words in one review session (a cap, not a daily target).
pub const REVIEW_SESSION_LIMIT: usize = 10;

/// Why a memory operation was refused.
#[derive(Clone, Debug, PartialEq, Eq)]
pub enum MemoryError {
    /// The database failed (its message).
    Sqlite(String),
    /// No encounter has this id.
    EncounterNotFound(i64),
    /// Only the latest visit of a word can change its level.
    NotLatestEncounter(i64),
    /// Levels only move towards more help (or stay).
    NotAnEscalation { from: String, to: String },
    /// A stored event could not be read.
    CorruptEvent(String),
}

/// What opening a visit does: extend the latest visit, or start a new one.
#[derive(Clone, Copy, Debug, PartialEq, Eq, Structural)]
pub enum VisitAction {
    /// Move the latest visit's time to now and keep its id.
    Merge(EncounterId),
    /// Insert a new visit.
    Insert,
}

/// A lookup at `now` merges into the latest visit when it is not older than that
/// visit and falls within the merge window; otherwise it opens a new visit.
pub open spec fn visit_rule(latest: Option<(EncounterId, i64)>, now: i64) -> VisitAction {
    match latest {
        Some((id, at)) => if now >= at && now - at < VISIT_MERGE_WINDOW_MS {
            VisitAction::Merge(id)
        } else {
            VisitAction::Insert
        },
        None => VisitAction::Insert,
    }
}

/// Decides whether a lookup at `now` merges into the latest visit (id and time).
pub fn visit_action(latest: Option<(EncounterId, i64)>, now: i64) -> (r: VisitAction)
    ensures
        r == visit_rule(latest, now),
{
    match latest {
        Some((id, at)) => {
            if now >= at && (now as i128) - (at as i128) < VISIT_MERGE_WINDOW_MS as i128 {
                VisitAction::Merge(id)
            } else {
                VisitAction::Insert
            }
        },
        None => VisitAction::Insert,
    }
}

/// A new level is an escalation of the current one when the current one is
/// `Unknown`, or when the new one needs strictly more help.
pub open spec fn escalates(current: ComprehensionLevel, new: ComprehensionLevel) -> bool {
    current == ComprehensionLevel::Unknown || level_rank(new) > level_rank(current)
}

/// The comprehension policy: only the latest visit of its word may change; the same
/// level again changes nothing; a different level must be an escalation.
/// `Ok(true)` means the stored level is to be updated.
pub open spec fn comprehension_rule(
    encounter: EncounterId,
    current: ComprehensionLevel,
    latest: Option<EncounterId>,
    level: ComprehensionLevel,
) -> Result<bool, MemoryError> {
    if latest != Some(encounter) {
        Err(MemoryError::NotLatestEncounter(encounter.0))
    } else if level == current {
        Ok(false)
    } else if escalates(current, level) {
        Ok(true)
    } else {
        Err(MemoryError::NotAnEscalation { from: arbitrary(), to: arbitrary() })
    }
}

/// The level of the latest visit after the requested levels `reqs[0..n]` were
/// applied in turn, each one kept only where the policy accepts it.
pub open spec fn settled_level(current: ComprehensionLevel, reqs: Seq<ComprehensionLevel>, n: int) -> ComprehensionLevel
    decreases n,
{
    if n <= 0 {
        current
    } else {
        let prev = settled_level(current, reqs, n - 1);
        if escalates(prev, reqs[n - 1]) {
            reqs[n - 1]
        } else {
            prev
        }
    }
}

/// Comprehension only moves towards more help: once the latest visit has a
/// disclosed level (not `Unknown`), whatever disclosed levels are requested, the
/// settled level needs at least as much help, and every request that the policy
/// refuses changes nothing.
pub proof fn lemma_levels_only_escalate(current: ComprehensionLevel, reqs: Seq<ComprehensionLevel>, e: EncounterId)
    requires
        current != ComprehensionLevel::Unknown,
        forall|k: int| 0 <= k < reqs.len() ==> reqs[k] != ComprehensionLevel::Unknown,
    ensures
        forall|n: int|
            0 <= n <= reqs.len() ==> level_rank(#[trigger] settled_level(current, reqs, n)) >= level_rank(current)
                && settled_level(current, reqs, n) != ComprehensionLevel::Unknown,
        forall|n: int|
            0 < n <= reqs.len() && (#[trigger] comprehension_rule(e, settled_level(current, reqs, n - 1), Some(e), reqs[n - 1])) is Err
                ==> settled_level(current, reqs, n) == settled_level(current, reqs, n - 1),
{
    assert forall|n: int| 0 <= n <= reqs.len() implies level_rank(#[trigger] settled_level(current, reqs, n))
        >= level_rank(current) && settled_level(current, reqs, n) != ComprehensionLevel::Unknown by {
        lemma_settled_rank(current, reqs, n);
    }
}

proof fn lemma_settled_rank(current: ComprehensionLevel, reqs: Seq<ComprehensionLevel>, n: int)
    requires
        current != ComprehensionLevel::Unknown,
        forall|k: int| 0 <= k < reqs.len() ==> reqs[k] != ComprehensionLevel::Unknown,
        0 <= n <= reqs.len(),
    ensures
        level_rank(settled_level(current, reqs, n)) >= level_rank(current),
        settled_level(current, reqs, n) != ComprehensionLevel::Unknown,
    decreases n,
{
    if n > 0 {
        lemma_settled_rank(current, reqs, n - 1);
    }
}

/// Applies the comprehension policy to an encounter at level `current` whose word's
/// latest visit is `latest`.
pub fn comprehension_change(
    encounter: EncounterId,
    current: ComprehensionLevel,
    latest: Option<EncounterId>,
    level: ComprehensionLevel,
) -> (r: Result<bool, MemoryError>)
    ensures
        match comprehension_rule(encounter, current, latest, level) {
            Ok(b) => r == Ok::<bool, MemoryError>(b),
            Err(MemoryError::NotAnEscalation { .. }) => r matches Err(
                MemoryError::NotAnEscalation { from, to },
            ) && from@ == level_name(current) && to@ == level_name(level),
            Err(e) => r == Err::<bool, MemoryError>(e),
        },
{
    let is_latest = match latest {
        Some(l) => l.0 == encounter.0,
        None => false,
    };
    if !is_latest {
        return Err(MemoryError::NotLatestEncounter(encounter.0));
    }
    if level == current {
        return Ok(false);
    }
    let up = current == ComprehensionLevel::Unknown || level.help_rank() > current.help_rank();
    if !up {
        return Err(
            MemoryError::NotAnEscalation {
                from: current.as_str().to_string(),
                to: level.as_str().to_string(),
            },
        );
    }
    Ok(true)
}

/// Overview counts for the home and statistics pages.
#[derive(Clone, Copy, Debug, PartialEq, Eq, Structural)]
pub struct StatsSummary {
    pub encountered: usize,
    pub learning: usize,
    pub familiar: usize,
    pub stable: usize,
    pub ignored: usize,
    pub due_now: usize,
    pub high_priority: usize,
}

/// One word of the statistics: its status bucket, flags and times (Unix ms).
#[derive(Clone, Copy, Debug)]
pub struct StatsRow {
    pub status: MemoryStatus,
    pub high_priority: bool,
    pub next_review_at: Option<i64>,
    pub last_visit_at: Option<i64>,
    pub last_review_at: Option<i64>,
    pub ignored: bool,
}

/// A word is due now when its due time has come and it had a visit or a review
/// since `active_since`.
pub open spec fn due_and_active(row: StatsRow, now: i64, active_since: i64) -> bool {
    (row.next_review_at matches Some(d) && d <= now) && ((row.last_visit_at matches Some(t) && t
        >= active_since) || (row.last_review_at matches Some(t) && t >= active_since))
}

/// The summary of the first `n` rows: every row is encountered; ignored rows count
/// only as ignored; the others count in their bucket, as high priority when
/// flagged, and as due when due and active.
pub open spec fn summary_of(rows: Seq<StatsRow>, n: int, now: i64, active_since: i64) -> StatsSummary
    decreases n,
{
    if n <= 0 {
        StatsSummary {
            encountered: 0,
            learning: 0,
            familiar: 0,
            stable: 0,
            ignored: 0,
            due_now: 0,
            high_priority: 0,
        }
    } else {
        let s = summary_of(rows, n - 1, now, active_since);
        let row = rows[n - 1];
        let s1 = StatsSummary { encountered: (s.encountered + 1) as usize, ..s };
        if row.ignored {
            StatsSummary { ignored: (s1.ignored + 1) as usize, ..s1 }
        } else {
            let s2 = match row.status {
                MemoryStatus::Learning => StatsSummary { learning: (s1.learning + 1) as usize, ..s1 },
                MemoryStatus::Familiar => StatsSummary { familiar: (s1.familiar + 1) as usize, ..s1 },
                MemoryStatus::Stable => StatsSummary { stable: (s1.stable + 1) as usize, ..s1 },
            };
            let s3 = if row.high_priority {
                StatsSummary { high_priority: (s2.high_priority + 1) as usize, ..s2 }
            } else {
                s2
            };
            if due_and_active(row, now, active_since) {
                StatsSummary { due_now: (s3.due_now + 1) as usize, ..s3 }
            } else {
                s3
            }
        }
    }
}

proof fn lemma_summary_bounds(rows: Seq<StatsRow>, n: int, now: i64, active_since: i64)
    requires
        0 <= n <= usize::MAX,
    ensures
        summary_of(rows, n, now, active_since).encountered == n,
        summary_of(rows, n, now, active_since).learning <= n,
        summary_of(rows, n, now, active_since).familiar <= n,
        summary_of(rows, n, now, active_since).stable <= n,
        summary_of(rows, n, now, active_since).ignored <= n,
        summary_of(rows, n, now, active_since).due_now <= n,
        summary_of(rows, n, now, active_since).high_priority <= n,
    decreases n,
{
    if n > 0 {
        lemma_summary_bounds(rows, n - 1, now, active_since);
    }
}

fn is_due_and_active(row: &StatsRow, now: i64, active_since: i64) -> (r: bool)
    ensures
        r == due_and_active(*row, now, active_since),
{
    let is_due = match row.next_review_at {
        Some(d) => d <= now,
        None => false,
    };
    let visited = match row.last_visit_at {
        Some(t) => t >= active_since,
        None => false,
    };
    let reviewed = match row.last_review_at {
        Some(t) => t >= active_since,
        None => false,
    };
    is_due && (visited || reviewed)
}

/// Counts the statistics rows at `now`; activity counts from 60 days before `now`.
pub fn summarize(rows: &Vec<StatsRow>, now: i64) -> (r: StatsSummary)
    requires
        now >= i64::MIN + QUEUE_ACTIVE_WINDOW_MS,
    ensures
        r == summary_of(rows@, rows@.len() as int, now, (now - QUEUE_ACTIVE_WINDOW_MS) as i64),
{
    let active_since = now - QUEUE_ACTIVE_WINDOW_MS;
    let mut s = StatsSummary {
        encountered: 0,
        learning: 0,
        familiar: 0,
        stable: 0,
        ignored: 0,
        due_now: 0,
        high_priority: 0,
    };
    let n = rows.len();
    let mut k: usize = 0;
    while k < n
        invariant
            n == rows.len(),
            k <= n,
            active_since == now - QUEUE_ACTIVE_WINDOW_MS,
            s == summary_of(rows@, k as int, now, active_since),
        decreases n - k,
    {
        proof {
            lemma_summary_bounds(rows@, k as int, now, active_since);
        }
        let row = &rows[k];
        s.encountered = s.encountered + 1;
        if row.ignored {
            s.ignored = s.ignored + 1;
        } else {
            match row.status {
                MemoryStatus::Learning => s.learning = s.learning + 1,
                MemoryStatus::Familiar => s.familiar = s.familiar + 1,
                MemoryStatus::Stable => s.stable = s.stable + 1,
            }
            if row.high_priority {
                s.high_priority = s.high_priority + 1;
            }
            if is_due_and_active(row, now, active_since) {
                s.due_now = s.due_now + 1;
            }
        }
        k += 1;
    }
    s
}

/// A due word of the fading list (word text is joined in by the caller).
#[derive(Clone, Copy, Debug, PartialEq, Eq, Structural)]
pub struct DueWord {
    pub word_id: WordId,
    pub high_priority: bool,
    pub next_review_at: Option<i64>,
}

/// The review queue: the ids of the first due words, at most the session limit.
pub fn review_queue(due: &Vec<DueWord>) -> (r: Vec<WordId>)
    ensures
        r@.len() == if due@.len() <= REVIEW_SESSION_LIMIT {
            due@.len()
        } else {
            REVIEW_SESSION_LIMIT as nat
        },
        forall|i: int| 0 <= i < r@.len() ==> r@[i] == #[trigger] due@[i].word_id,
{
    let mut out: Vec<WordId> = Vec::new();
    let mut i: usize = 0;
    while i < due.len() && i < REVIEW_SESSION_LIMIT
        invariant
            i <= due.len(),
            i <= REVIEW_SESSION_LIMIT,
            out@.len() == i,
            forall|k: int| 0 <= k < i ==> out@[k] == #[trigger] due@[k].word_id,
        decreases due.len() - i,
    {
        out.push(due[i].word_id);
        i += 1;
    }
    out
}

} // verus!
