//! The integer side of the memory projection: visit, review and lapse counts,
//! the weak streak, the anchor timestamps and the high-priority flag, folded from
//! a word's event stream; and the rule by which a visit may move the due time.
//!
//! The floating-point strength and difficulty are computed beside this fold by the
//! application, which takes the due time of every visit from `due_after_visit`.

use vstd::prelude::*;
use crate::domain::ComprehensionLevel;
use super::model::{MemoryEvent, RecallQuality};

verus! {

/// Lookups that count as weak: the Chinese definition was needed, or the word is still unknown.
pub open spec fn weak_level(level: ComprehensionLevel) -> bool {
    level == ComprehensionLevel::ChineseDefinition || level == ComprehensionLevel::Unknown
}

/// Whether a visit at this level is weak.
pub fn is_weak(level: ComprehensionLevel) -> (r: bool)
    ensures
        r == weak_level(level),
{
    match level {
        ComprehensionLevel::ChineseDefinition | ComprehensionLevel::Unknown => true,
        _ => false,
    }
}

/// The thresholds of the high-priority flag: a weak streak of at least
/// `weak_streak`, or at least `visit_count` non-context visits within `window_ms`.
#[derive(Clone, Copy, Debug)]
pub struct PriorityRule {
    pub weak_streak: u32,
    pub window_ms: i64,
    pub visit_count: usize,
}

/// The integer fields of a word's memory state.
#[derive(Clone, Copy, Debug, PartialEq, Eq, Structural)]
pub struct Tally {
    pub review_count: u32,
    pub lapse_count: u32,
    pub visit_count: u32,
    pub weak_streak: u32,
    pub first_visit_at: i64,
    pub last_visit_at: Option<i64>,
    pub last_review_at: Option<i64>,
    pub last_reinforcement_at: Option<i64>,
}

/// The tally after a review, on top of `c`.
pub open spec fn review_step(c: Tally, at: i64, quality: RecallQuality) -> Tally {
    Tally {
        review_count: (c.review_count + 1) as u32,
        lapse_count: if quality == RecallQuality::Forgotten {
            (c.lapse_count + 1) as u32
        } else {
            c.lapse_count
        },
        last_review_at: Some(at),
        last_reinforcement_at: Some(at),
        weak_streak: 0,
        ..c
    }
}

/// The tally after one event.
pub open spec fn tally_step(prev: Option<Tally>, ev: MemoryEvent) -> Option<Tally> {
    match ev {
        MemoryEvent::Visit { at, level } => match prev {
            None => Some(
                Tally {
                    review_count: 0,
                    lapse_count: 0,
                    visit_count: 1,
                    weak_streak: if weak_level(level) {
                        1
                    } else {
                        0
                    },
                    first_visit_at: at,
                    last_visit_at: Some(at),
                    last_review_at: None,
                    last_reinforcement_at: Some(at),
                },
            ),
            Some(c) => {
                let c1 = Tally { visit_count: (c.visit_count + 1) as u32, last_visit_at: Some(at), ..c };
                if level == ComprehensionLevel::Context {
                    Some(Tally { last_reinforcement_at: Some(at), weak_streak: 0, ..c1 })
                } else if weak_level(level) {
                    Some(Tally { weak_streak: (c1.weak_streak + 1) as u32, ..c1 })
                } else {
                    Some(c1)
                }
            },
        },
        MemoryEvent::ReviewDone { at, quality } => match prev {
            None => Some(
                review_step(
                    Tally {
                        review_count: 0,
                        lapse_count: 0,
                        visit_count: 0,
                        weak_streak: 0,
                        first_visit_at: at,
                        last_visit_at: None,
                        last_review_at: None,
                        last_reinforcement_at: Some(at),
                    },
                    at,
                    quality,
                ),
            ),
            Some(c) => Some(review_step(c, at, quality)),
        },
    }
}

/// The tally of the first `n` events; `None` when there is no event.
pub open spec fn tally_of(events: Seq<MemoryEvent>, n: int) -> Option<Tally>
    decreases n,
{
    if n <= 0 {
        None
    } else {
        tally_step(tally_of(events, n - 1), events[n - 1])
    }
}

/// The visit times that feed the lookup-burst priority after the first `n` events:
/// a context visit or a successful review clears them, other visits add their time.
pub open spec fn burst_times(events: Seq<MemoryEvent>, n: int) -> Seq<i64>
    decreases n,
{
    if n <= 0 {
        Seq::empty()
    } else {
        let prev = burst_times(events, n - 1);
        match events[n - 1] {
            MemoryEvent::Visit { at, level } => if level == ComprehensionLevel::Context {
                Seq::empty()
            } else {
                prev.push(at)
            },
            MemoryEvent::ReviewDone { at, quality } => if quality != RecallQuality::Forgotten {
                Seq::empty()
            } else {
                prev
            },
        }
    }
}

/// How many of the times after position `i`, from `j` on, stay within `window` of
/// `times[i]` before the first one that does not.
pub open spec fn run_from(times: Seq<i64>, i: int, j: int, window: i64) -> nat
    decreases times.len() - j,
{
    if j < 0 || j >= times.len() || times[j] - times[i] > window {
        0
    } else {
        1 + run_from(times, i, j + 1, window)
    }
}

/// Some visit is followed, within the window, by enough consecutive visits that,
/// counting itself, at least `need` visits (and at least two) fall in the window.
pub open spec fn burst(times: Seq<i64>, window: i64, need: nat) -> bool {
    need > 0 && exists|i: int|
        0 <= i < times.len() && #[trigger] run_from(times, i, i + 1, window) >= 1 && 1 + run_from(
            times,
            i,
            i + 1,
            window,
        ) >= need
}

proof fn lemma_run_from_bound(times: Seq<i64>, i: int, j: int, window: i64)
    requires
        0 <= j,
    ensures
        run_from(times, i, j, window) <= if j <= times.len() {
            times.len() - j
        } else {
            0
        },
    decreases times.len() - j,
{
    if j < times.len() {
        lemma_run_from_bound(times, i, j + 1, window);
    }
}

/// Sliding window: whether `need` visits (in time order) fall within `window_ms`
/// of one another, counted from each visit forward.
pub fn visits_in_window(times: &Vec<i64>, window_ms: i64, need: usize) -> (r: bool)
    ensures
        r == burst(times@, window_ms, need as nat),
{
    if times.len() < need || need == 0 {
        proof {
            if need > 0 {
                assert forall|i: int|
                    0 <= i < times@.len() && #[trigger] run_from(times@, i, i + 1, window_ms) >= 1 implies 1
                    + run_from(times@, i, i + 1, window_ms) < need by {
                    lemma_run_from_bound(times@, i, i + 1, window_ms);
                }
            }
        }
        return false;
    }
    let n = times.len();
    let mut i: usize = 0;
    while i < n
        invariant
            n == times.len(),
            need > 0,
            i <= n,
            forall|k: int|
                0 <= k < i ==> !(#[trigger] run_from(times@, k, k + 1, window_ms) >= 1 && 1 + run_from(
                    times@,
                    k,
                    k + 1,
                    window_ms,
                ) >= need),
        decreases n - i,
    {
        let mut count: usize = 1;
        let mut j: usize = i + 1;
                while j < n
            invariant
                n == times.len(),
                need > 0,
                i < n,
                i + 1 <= j <= n,
                count == j - i,
                j > i + 1 ==> count < need,
                run_from(times@, i as int, i + 1, window_ms) == (j - i - 1) + run_from(
                    times@,
                    i as int,
                    j as int,
                    window_ms,
                ),
            ensures
                i + 1 <= j <= n,
                count == j - i,
                j > i + 1 ==> count < need,
                run_from(times@, i as int, i + 1, window_ms) == (j - i - 1) + run_from(
                    times@,
                    i as int,
                    j as int,
                    window_ms,
                ),
                run_from(times@, i as int, j as int, window_ms) == 0,
            decreases n - j,
        {
            let within = (times[j] as i128) - (times[i] as i128) <= window_ms as i128;
            if within {
                count += 1;
                if count >= need {
                    proof {
                        assert(run_from(times@, i as int, j as int, window_ms) == 1 + run_from(
                            times@,
                            i as int,
                            j + 1,
                            window_ms,
                        ));
                        assert(run_from(times@, i as int, i + 1, window_ms) >= 1);
                    }
                    return true;
                }
                j += 1;
            } else {
                assert(run_from(times@, i as int, j as int, window_ms) == 0);
                break;
            }
        }
        i += 1;
    }
    false
}

/// The due time after a visit. A context visit reinforces: the word is due one
/// reinforced interval after the visit. An English-definition visit leaves the due
/// time as it was. A weak visit may only bring the due time forward: it becomes
/// the earlier of the old due time and the relearning horizon after the visit.
pub open spec fn due_rule(
    level: ComprehensionLevel,
    due: Option<i64>,
    at: i64,
    reinforced_ms: i64,
    relearn_ms: i64,
) -> Option<i64> {
    if level == ComprehensionLevel::Context {
        Some((at + reinforced_ms) as i64)
    } else if level == ComprehensionLevel::EnglishDefinition {
        due
    } else {
        let candidate = (at + relearn_ms) as i64;
        match due {
            Some(d) => Some(
                if d <= candidate {
                    d
                } else {
                    candidate
                },
            ),
            None => Some(candidate),
        }
    }
}

/// The due time after a visit at `at` (see `due_rule`). `reinforced_ms` is the
/// new strength interval of a context visit, `relearn_ms` the relearning horizon
/// of a weak visit; both are computed from the strength by the caller.
pub fn due_after_visit(
    level: ComprehensionLevel,
    due: Option<i64>,
    at: i64,
    reinforced_ms: i64,
    relearn_ms: i64,
) -> (r: Option<i64>)
    requires
        level == ComprehensionLevel::Context ==> i64::MIN <= at + reinforced_ms <= i64::MAX,
        weak_level(level) ==> i64::MIN <= at + relearn_ms <= i64::MAX,
    ensures
        r == due_rule(level, due, at, reinforced_ms, relearn_ms),
        // only a reinforcing visit can move an existing due time later
        level != ComprehensionLevel::Context && due is Some ==> r is Some && r.unwrap() <= due.unwrap(),
        level == ComprehensionLevel::EnglishDefinition ==> r == due,
{
    match level {
        ComprehensionLevel::Context => Some(at + reinforced_ms),
        ComprehensionLevel::EnglishDefinition => due,
        ComprehensionLevel::ChineseDefinition | ComprehensionLevel::Unknown => {
            let candidate = at + relearn_ms;
            match due {
                Some(d) => Some(
                    if d <= candidate {
                        d
                    } else {
                        candidate
                    },
                ),
                None => Some(candidate),
            }
        },
    }
}

/// The due time after the first `n` visits (level, time, reinforced interval,
/// relearning horizon), starting from `due`.
pub open spec fn due_after_visits(due: Option<i64>, visits: Seq<(ComprehensionLevel, i64, i64, i64)>, n: int) -> Option<i64>
    decreases n,
{
    if n <= 0 {
        due
    } else {
        let v = visits[n - 1];
        due_rule(v.0, due_after_visits(due, visits, n - 1), v.1, v.2, v.3)
    }
}

/// Looking a word up again without understanding it from context never postpones
/// its review: after any run of visits none of which is at the context level, the
/// due time is still set and no later than before.
pub proof fn lemma_lookups_never_postpone(due: i64, visits: Seq<(ComprehensionLevel, i64, i64, i64)>)
    requires
        forall|k: int| 0 <= k < visits.len() ==> (#[trigger] visits[k]).0 != ComprehensionLevel::Context,
    ensures
        forall|n: int|
            0 <= n <= visits.len() ==> (#[trigger] due_after_visits(Some(due), visits, n) matches Some(d) && d <= due),
{
    assert forall|n: int| 0 <= n <= visits.len() implies (#[trigger] due_after_visits(Some(due), visits, n) matches Some(d)
        && d <= due) by {
        lemma_due_after_visits_bound(due, visits, n);
    }
}

proof fn lemma_due_after_visits_bound(due: i64, visits: Seq<(ComprehensionLevel, i64, i64, i64)>, n: int)
    requires
        forall|k: int| 0 <= k < visits.len() ==> (#[trigger] visits[k]).0 != ComprehensionLevel::Context,
        0 <= n <= visits.len(),
    ensures
        due_after_visits(Some(due), visits, n) matches Some(d) && d <= due,
    decreases n,
{
    if n > 0 {
        lemma_due_after_visits_bound(due, visits, n - 1);
        assert(visits[n - 1].0 != ComprehensionLevel::Context);
    }
}

/// The integer projection of a word's event stream.
#[derive(Clone, Copy, Debug, PartialEq, Eq, Structural)]
pub struct Projection {
    pub tally: Tally,
    pub high_priority: bool,
}

/// The projection of the whole stream: `None` without events; otherwise the tally
/// and whether it is high priority (long weak streak or a burst of lookups).
pub open spec fn projection(events: Seq<MemoryEvent>, rule: PriorityRule) -> Option<Projection> {
    match tally_of(events, events.len() as int) {
        None => None,
        Some(t) => Some(
            Projection {
                tally: t,
                high_priority: t.weak_streak >= rule.weak_streak || burst(
                    burst_times(events, events.len() as int),
                    rule.window_ms,
                    rule.visit_count as nat,
                ),
            },
        ),
    }
}

/// Every count of the first `n` events stays at most `n`.
proof fn lemma_tally_bounds(events: Seq<MemoryEvent>, n: int)
    requires
        0 <= n <= events.len(),
    ensures
        tally_of(events, n) matches Some(t) ==> t.review_count <= n && t.lapse_count <= n
            && t.visit_count <= n && t.weak_streak <= n,
    decreases n,
{
    if n > 0 {
        lemma_tally_bounds(events, n - 1);
    }
}

/// Folds the event stream (time order) into its integer projection.
pub fn fold_projection(events: &Vec<MemoryEvent>, rule: PriorityRule) -> (r: Option<Projection>)
    requires
        events@.len() <= u32::MAX,
    ensures
        r == projection(events@, rule),
{
    let mut core: Option<Tally> = None;
    let mut times: Vec<i64> = Vec::new();
    let n = events.len();
    let mut k: usize = 0;
    while k < n
        invariant
            n == events.len() <= u32::MAX,
            k <= n,
            core == tally_of(events@, k as int),
            times@ == burst_times(events@, k as int),
        decreases n - k,
    {
        proof {
            lemma_tally_bounds(events@, k as int);
        }
        match events[k] {
            MemoryEvent::Visit { at, level } => {
                if level == ComprehensionLevel::Context {
                    times = Vec::new();
                } else {
                    times.push(at);
                }
                core = match core {
                    None => Some(
                        Tally {
                            review_count: 0,
                            lapse_count: 0,
                            visit_count: 1,
                            weak_streak: if is_weak(level) {
                                1
                            } else {
                                0
                            },
                            first_visit_at: at,
                            last_visit_at: Some(at),
                            last_review_at: None,
                            last_reinforcement_at: Some(at),
                        },
                    ),
                    Some(c) => {
                        let c1 = Tally { visit_count: c.visit_count + 1, last_visit_at: Some(at), ..c };
                        if level == ComprehensionLevel::Context {
                            Some(Tally { last_reinforcement_at: Some(at), weak_streak: 0, ..c1 })
                        } else if is_weak(level) {
                            Some(Tally { weak_streak: c1.weak_streak + 1, ..c1 })
                        } else {
                            Some(c1)
                        }
                    },
                };
            },
            MemoryEvent::ReviewDone { at, quality } => {
                if quality != RecallQuality::Forgotten {
                    times = Vec::new();
                }
                let c = match core {
                    Some(c) => c,
                    None => Tally {
                        review_count: 0,
                        lapse_count: 0,
                        visit_count: 0,
                        weak_streak: 0,
                        first_visit_at: at,
                        last_visit_at: None,
                        last_review_at: None,
                        last_reinforcement_at: Some(at),
                    },
                };
                core = Some(
                    Tally {
                        review_count: c.review_count + 1,
                        lapse_count: if quality == RecallQuality::Forgotten {
                            c.lapse_count + 1
                        } else {
                            c.lapse_count
                        },
                        last_review_at: Some(at),
                        last_reinforcement_at: Some(at),
                        weak_streak: 0,
                        ..c
                    },
                );
            },
        }
        k += 1;
    }
    match core {
        None => None,
        Some(t) => {
            let high_priority = t.weak_streak >= rule.weak_streak || visits_in_window(
                &times,
                rule.window_ms,
                rule.visit_count,
            );
            Some(Projection { tally: t, high_priority })
        },
    }
}

/// How many of the first `n` events are visits.
pub open spec fn visits_of(events: Seq<MemoryEvent>, n: int) -> nat
    decreases n,
{
    if n <= 0 {
        0
    } else {
        visits_of(events, n - 1) + if events[n - 1] is Visit {
            1nat
        } else {
            0nat
        }
    }
}

/// How many of the first `n` events are completed reviews.
pub open spec fn reviews_of(events: Seq<MemoryEvent>, n: int) -> nat
    decreases n,
{
    if n <= 0 {
        0
    } else {
        reviews_of(events, n - 1) + if events[n - 1] is ReviewDone {
            1nat
        } else {
            0nat
        }
    }
}

/// How many of the first `n` events are reviews graded Forgotten.
pub open spec fn lapses_of(events: Seq<MemoryEvent>, n: int) -> nat
    decreases n,
{
    if n <= 0 {
        0
    } else {
        lapses_of(events, n - 1) + if events[n - 1] matches MemoryEvent::ReviewDone {
            quality: RecallQuality::Forgotten,
            ..
        } {
            1nat
        } else {
            0nat
        }
    }
}

proof fn lemma_counts_prefix(events: Seq<MemoryEvent>, n: int)
    requires
        0 < n <= events.len() <= u32::MAX,
    ensures
        tally_of(events, n) matches Some(t) && t.visit_count == visits_of(events, n)
            && t.review_count == reviews_of(events, n) && t.lapse_count == lapses_of(events, n),
    decreases n,
{
    lemma_tally_bounds(events, n - 1);
    assert(visits_of(events, 0) == 0);
    assert(reviews_of(events, 0) == 0);
    assert(lapses_of(events, 0) == 0);
    assert(tally_of(events, 0) is None);
    if n > 1 {
        lemma_counts_prefix(events, n - 1);
    }
}

/// The projection counts exactly the visits, the completed reviews and the
/// reviews graded Forgotten of the stream; without events there is no projection.
pub proof fn lemma_projection_counts(events: Seq<MemoryEvent>, rule: PriorityRule)
    requires
        events.len() <= u32::MAX,
    ensures
        events.len() == 0 ==> projection(events, rule) is None,
        events.len() > 0 ==> (projection(events, rule) matches Some(p) && p.tally.visit_count
            == visits_of(events, events.len() as int) && p.tally.review_count == reviews_of(
            events,
            events.len() as int,
        ) && p.tally.lapse_count == lapses_of(events, events.len() as int)),
{
    if events.len() > 0 {
        lemma_counts_prefix(events, events.len() as int);
    }
}

/// A context visit or any completed review ends the weak streak; a weak visit
/// lengthens it by one; an English-definition visit leaves it as it was.
pub proof fn lemma_weak_streak_step(events: Seq<MemoryEvent>, n: int)
    requires
        1 < n <= events.len() <= u32::MAX,
    ensures
        tally_of(events, n) matches Some(t) && tally_of(events, n - 1) matches Some(p) && (
        match events[n - 1] {
            MemoryEvent::Visit { at, level } => if level == ComprehensionLevel::Context {
                t.weak_streak == 0
            } else if weak_level(level) {
                t.weak_streak == p.weak_streak + 1
            } else {
                t.weak_streak == p.weak_streak
            },
            MemoryEvent::ReviewDone { at, quality } => t.weak_streak == 0,
        }),
{
    lemma_tally_bounds(events, n - 1);
    lemma_counts_prefix(events, n - 1);
}

/// The time of an event.
pub open spec fn event_at(e: MemoryEvent) -> i64 {
    match e {
        MemoryEvent::Visit { at, .. } => at,
        MemoryEvent::ReviewDone { at, .. } => at,
    }
}

/// The event is a lookup of any level but context.
pub open spec fn is_lookup(e: MemoryEvent) -> bool {
    e matches MemoryEvent::Visit { level, .. } && level != ComprehensionLevel::Context
}

/// Lookups after position `k` extend the burst times by their own times, in order.
proof fn lemma_burst_suffix(events: Seq<MemoryEvent>, k: int, n: int)
    requires
        0 <= k <= n <= events.len(),
        forall|j: int| k <= j < n ==> is_lookup(#[trigger] events[j]),
    ensures
        burst_times(events, n).len() == burst_times(events, k).len() + (n - k),
        forall|j: int|
            k <= j < n ==> burst_times(events, n)[burst_times(events, k).len() + (j - k)] == event_at(
                #[trigger] events[j],
            ),
    decreases n - k,
{
    if n > k {
        lemma_burst_suffix(events, k, n - 1);
        assert(is_lookup(events[n - 1]));
        let prev = burst_times(events, n - 1);
        assert(burst_times(events, n) == prev.push(event_at(events[n - 1])));
        assert forall|j: int| k <= j < n implies burst_times(events, n)[burst_times(events, k).len() + (j - k)]
            == event_at(#[trigger] events[j]) by {
            if j < n - 1 {
                assert(burst_times(events, n)[burst_times(events, k).len() + (j - k)] == prev[burst_times(
                    events,
                    k,
                ).len() + (j - k)]);
            }
        }
    }
}

proof fn lemma_run_to_end(times: Seq<i64>, i: int, j: int, window: i64)
    requires
        0 <= i < j <= times.len(),
        forall|q: int| j <= q < times.len() ==> #[trigger] times[q] - times[i] <= window,
    ensures
        run_from(times, i, j, window) == times.len() - j,
    decreases times.len() - j,
{
    if j < times.len() {
        lemma_run_to_end(times, i, j + 1, window);
    }
}

/// A burst of lookups makes a word high priority: when the stream ends with at
/// least `visit_count` (and at least two) lookups of any level but context, all
/// within `window_ms` after the first of them, the word is high priority. (A rule
/// that asks for no visits at all never sees a burst.)
pub proof fn lemma_lookup_burst_is_priority(events: Seq<MemoryEvent>, rule: PriorityRule, k: int)
    requires
        rule.visit_count >= 1,
        0 <= k,
        k + 2 <= events.len(),
        k + rule.visit_count <= events.len(),
        forall|j: int| k <= j < events.len() ==> is_lookup(#[trigger] events[j]),
        forall|j: int|
            k <= j < events.len() ==> event_at(#[trigger] events[j]) - event_at(events[k]) <= rule.window_ms,
    ensures
        projection(events, rule) matches Some(p) && p.high_priority,
{
    let n = events.len() as int;
    lemma_burst_suffix(events, k, n);
    let times = burst_times(events, n);
    let i = burst_times(events, k).len() as int;
    assert(times[i + (k - k)] == event_at(events[k]));
    assert forall|q: int| i + 1 <= q < times.len() implies #[trigger] times[q] - times[i] <= rule.window_ms by {
        let j = k + (q - i);
        assert(times[i + (j - k)] == event_at(events[j]));
    }
    lemma_run_to_end(times, i, i + 1, rule.window_ms);
    assert(run_from(times, i, i + 1, rule.window_ms) >= 1);
    assert(burst(times, rule.window_ms, rule.visit_count as nat));
    assert(tally_of(events, n) is Some);
}

/// After a successful review (any quality but Forgotten) the lookup burst is
/// forgotten and the weak streak is zero, so the word is not high priority
/// unless the streak threshold is zero.
pub proof fn lemma_success_clears_priority(events: Seq<MemoryEvent>, rule: PriorityRule)
    requires
        0 < events.len() <= u32::MAX,
        events.last() matches MemoryEvent::ReviewDone { quality, .. } && quality
            != RecallQuality::Forgotten,
        rule.weak_streak > 0,
    ensures
        projection(events, rule) matches Some(p) && !p.high_priority && p.tally.weak_streak == 0,
{
    let n = events.len() as int;
    lemma_tally_bounds(events, n - 1);
    assert(burst_times(events, n) =~= Seq::<i64>::empty());
}

} // verus!
