//! The review session rules: which due words form a group and with which prompt,
//! hint requests and their order, the validation of a started review, and grading.

use vstd::prelude::*;
use crate::dictionary::model::WordEntry;
use crate::domain::{ExampleId, ReviewId, SenseId, WordId};
use crate::memory::model::RecallQuality;
use crate::memory::service::{MemoryError, REVIEW_SESSION_LIMIT};
use crate::error::DictionaryError;
use crate::scan::{first_from, lemma_first_from};
use crate::text::{chars_of, trim, trim_chars};
use super::grader::{
    build_definition_prompt, definition_prompt, graded_correct, is_correct, mask, mask_hint,
    quality_for, quality_of,
};
use crate::dictionary::engine::normalized;
use super::model::{Hint, PromptSource, ReviewItem};

verus! {

/// Why a review step was refused.
#[derive(Clone, Debug, PartialEq, Eq)]
pub enum ReviewError {
    /// The database failed (its message).
    Sqlite(String),
    /// The dictionary layer failed.
    Dictionary(DictionaryError),
    /// The memory layer failed.
    Memory(MemoryError),
    /// No review has this id.
    NotFound(i64),
    /// The review was already submitted.
    AlreadyCompleted(i64),
    /// Hints are numbered 1 to 3.
    InvalidHint(u32),
    /// Hints come in order: the next one is `expected`.
    UnexpectedHint { requested: u32, expected: u32 },
    /// The word, sense or example is not available.
    NoWordData,
}

/// A read-only group entry: the full entry to browse and the local prompt.
#[derive(Clone, Debug)]
pub struct ReviewGroupEntry {
    pub item: ReviewItem,
    pub entry: WordEntry,
}

/// The orchestration of a review session (storage is done by the caller).
pub struct ReviewService;

/// The level and text of a hint.
pub open spec fn hint_view(h: Hint) -> (u32, Seq<char>) {
    match h {
        Hint::Mask { text } => (1, text@),
        Hint::English { text } => (2, text@),
        Hint::Chinese { text } => (3, text@),
    }
}

pub open spec fn sense_id_pred(e: WordEntry, id: SenseId) -> spec_fn(int) -> bool {
    |i: int| e.senses@[i].id == id
}

/// The sense a hint speaks of: the given one, else the first sense.
pub open spec fn hint_sense(e: WordEntry, sense_id: Option<SenseId>) -> Option<int> {
    match sense_id {
        Some(id) => first_from(0, e.senses@.len() as int, sense_id_pred(e, id)),
        None => if e.senses@.len() > 0 {
            Some(0)
        } else {
            None
        },
    }
}

/// Hint 1 masks the display form; hint 2 is the English definition of the sense;
/// any other number gives the Chinese definition (empty when there is none).
pub open spec fn hint_rule(e: WordEntry, sense_id: Option<SenseId>, hint_no: u32) -> Option<(u32, Seq<char>)> {
    match hint_sense(e, sense_id) {
        None => None,
        Some(i) => Some(
            if hint_no == 1 {
                (1, mask(e.display@))
            } else if hint_no == 2 {
                (2, e.senses@[i].english_definition@)
            } else {
                (
                    3,
                    match e.senses@[i].chinese_definition {
                        Some(z) => z@,
                        None => Seq::empty(),
                    },
                )
            },
        ),
    }
}

fn find_sense(entry: &WordEntry, id: SenseId) -> (r: Option<usize>)
    ensures
        match r {
            Some(i) => first_from(0, entry.senses@.len() as int, sense_id_pred(*entry, id)) == Some(
                i as int,
            ) && i < entry.senses@.len(),
            None => first_from(0, entry.senses@.len() as int, sense_id_pred(*entry, id)) is None,
        },
{
    let n = entry.senses.len();
    let mut i: usize = 0;
    while i < n
        invariant
            i <= n == entry.senses@.len(),
            first_from(0, n as int, sense_id_pred(*entry, id)) == first_from(
                i as int,
                n as int,
                sense_id_pred(*entry, id),
            ),
        decreases n - i,
    {
        if entry.senses[i].id.0 == id.0 {
            return Some(i);
        }
        i += 1;
    }
    None
}

/// Builds hint `hint_no` for the entry (shared by formal review and practice).
pub fn hint_for(entry: &WordEntry, sense_id: Option<SenseId>, hint_no: u32) -> (r: Result<Hint, ReviewError>)
    ensures
        match hint_rule(*entry, sense_id, hint_no) {
            None => r == Err::<Hint, ReviewError>(ReviewError::NoWordData),
            Some(v) => r matches Ok(h) && hint_view(h) == v,
        },
{
    let idx = match sense_id {
        Some(id) => find_sense(entry, id),
        None => if entry.senses.len() > 0 {
            Some(0)
        } else {
            None
        },
    };
    match idx {
        None => Err(ReviewError::NoWordData),
        Some(i) => {
            let sense = &entry.senses[i];
            if hint_no == 1 {
                Ok(Hint::Mask { text: mask_hint(entry.display.as_str()) })
            } else if hint_no == 2 {
                Ok(Hint::English { text: sense.english_definition.clone() })
            } else {
                let text = match &sense.chinese_definition {
                    Some(z) => z.clone(),
                    None => String::new(),
                };
                Ok(Hint::Chinese { text })
            }
        },
    }
}

/// The order of hints: a number outside 1..=3 is invalid; otherwise only the
/// hint after those already used may be requested.
pub open spec fn hint_request_rule(hint_no: u32, hints_used: u32) -> Result<(), ReviewError> {
    if !(1 <= hint_no <= 3) {
        Err(ReviewError::InvalidHint(hint_no))
    } else if hint_no != hints_used + 1 {
        Err(ReviewError::UnexpectedHint { requested: hint_no, expected: (hints_used + 1) as u32 })
    } else {
        Ok(())
    }
}

/// Whether a review that has used `hints_used` hints may receive hint `hint_no`.
pub fn check_hint_request(hint_no: u32, hints_used: u32) -> (r: Result<(), ReviewError>)
    requires
        hints_used < u32::MAX,
    ensures
        r == hint_request_rule(hint_no, hints_used),
{
    if hint_no < 1 || hint_no > 3 {
        return Err(ReviewError::InvalidHint(hint_no));
    }
    let expected = hints_used + 1;
    if hint_no != expected {
        return Err(ReviewError::UnexpectedHint { requested: hint_no, expected });
    }
    Ok(())
}

/// The example belongs to sense `i`.
pub open spec fn sense_has_example(e: WordEntry, i: int, x: ExampleId) -> bool {
    exists|j: int| 0 <= j < e.senses@[i].examples@.len() && #[trigger] e.senses@[i].examples@[j].id == x
}

/// The example belongs to some sense of the entry.
pub open spec fn entry_has_example(e: WordEntry, x: ExampleId) -> bool {
    exists|i: int| 0 <= i < e.senses@.len() && #[trigger] sense_has_example(e, i, x)
}

/// A review may start when the given sense belongs to the word, and the given
/// example belongs to that sense (or, without a sense, to any sense of the word).
pub open spec fn start_rule(e: WordEntry, sense_id: Option<SenseId>, example_id: Option<ExampleId>) -> bool {
    let sense = match sense_id {
        Some(id) => first_from(0, e.senses@.len() as int, sense_id_pred(e, id)),
        None => None,
    };
    (sense_id is None || sense is Some) && match example_id {
        None => true,
        Some(x) => match sense {
            Some(i) => sense_has_example(e, i, x),
            None => entry_has_example(e, x),
        },
    }
}

fn sense_holds_example(entry: &WordEntry, i: usize, x: ExampleId) -> (r: bool)
    requires
        i < entry.senses@.len(),
    ensures
        r == sense_has_example(*entry, i as int, x),
{
    let exs = &entry.senses[i].examples;
    let mut j: usize = 0;
    while j < exs.len()
        invariant
            i < entry.senses@.len(),
            exs == entry.senses@[i as int].examples,
            j <= exs@.len(),
            forall|k: int| 0 <= k < j ==> exs@[k].id != x,
        decreases exs.len() - j,
    {
        if exs[j].id.0 == x.0 {
            return true;
        }
        j += 1;
    }
    false
}

fn entry_holds_example(entry: &WordEntry, x: ExampleId) -> (r: bool)
    ensures
        r == entry_has_example(*entry, x),
{
    let mut i: usize = 0;
    while i < entry.senses.len()
        invariant
            i <= entry.senses@.len(),
            forall|k: int| 0 <= k < i ==> !#[trigger] sense_has_example(*entry, k, x),
        decreases entry.senses.len() - i,
    {
        if sense_holds_example(entry, i, x) {
            return true;
        }
        i += 1;
    }
    false
}

/// Grading of a submitted answer (`None` is a give-up).
#[derive(Clone, Copy, Debug, PartialEq, Eq, Structural)]
pub struct Grade {
    pub correct: bool,
    pub quality: RecallQuality,
    /// The attempt is recorded as an answer (else as a reveal).
    pub answered: bool,
}

/// A given answer is correct when it matches the word under the grading rule;
/// a give-up is never correct.
pub open spec fn answer_correct(answer: Option<Seq<char>>, word: Seq<char>) -> bool {
    match answer {
        Some(a) => graded_correct(normalized(a), normalized(word)),
        None => false,
    }
}

/// The answer as characters.
pub open spec fn answer_view(answer: Option<String>) -> Option<Seq<char>> {
    match answer {
        Some(a) => Some(a@),
        None => None,
    }
}

impl ReviewService {
    /// The read-only group: in due order, each entry with senses and a non-blank
    /// definition prompt, up to the session limit. Local prompts are definitions
    /// only (Chinese first); generated sentences are added by the application.
    pub fn group(&self, entries: Vec<WordEntry>) -> (r: Vec<ReviewGroupEntry>)
        ensures
            r@.len() == picked(entries@, entries@.len() as int).len(),
            forall|k: int|
                0 <= k < r@.len() ==> {
                    let i = picked(entries@, entries@.len() as int)[k];
                    &&& #[trigger] r@[k].entry == entries@[i]
                    &&& group_item(r@[k].item, entries@[i])
                },
    {
        let ghost all = entries@;
        let mut out: Vec<ReviewGroupEntry> = Vec::new();
        for entry in it: entries
            invariant
                it.seq() == all,
                out@.len() == picked(all, it.index() as int).len(),
                out@.len() <= REVIEW_SESSION_LIMIT,
                forall|k: int|
                    0 <= k < out@.len() ==> {
                        let i = picked(all, it.index() as int)[k];
                        &&& 0 <= i < it.index()
                        &&& #[trigger] out@[k].entry == all[i]
                        &&& group_item(out@[k].item, all[i])
                    },
        {
            proof {
                lemma_picked_bounds(all, it.index() as int);
            }
            if out.len() < REVIEW_SESSION_LIMIT && entry.senses.len() > 0 {
                let prompt = build_definition_prompt(&entry);
                let text = chars_of(prompt.text.as_str());
                if trim_chars(&text).len() > 0 {
                    let item = ReviewItem {
                        word_id: entry.id,
                        prompt: prompt.text,
                        kind: prompt.kind,
                        source: PromptSource::Dictionary,
                        sense_id: prompt.sense_id,
                        example_id: prompt.example_id,
                    };
                    out.push(ReviewGroupEntry { item, entry });
                }
            }
        }
        out
    }

    /// The group as prompt items only.
    pub fn queue(&self, entries: Vec<WordEntry>) -> (r: Vec<ReviewItem>)
        ensures
            r@.len() == picked(entries@, entries@.len() as int).len(),
            forall|k: int|
                0 <= k < r@.len() ==> group_item(
                    #[trigger] r@[k],
                    entries@[picked(entries@, entries@.len() as int)[k]],
                ),
    {
        let group = self.group(entries);
        let mut out: Vec<ReviewItem> = Vec::new();
        for g in it: group
            invariant
                it.seq() == group@,
                out@.len() == it.index(),
                forall|k: int| 0 <= k < it.index() ==> #[trigger] out@[k] == group@[k].item,
        {
            out.push(g.item);
        }
        assert forall|k: int| 0 <= k < out@.len() implies group_item(
            #[trigger] out@[k],
            entries@[picked(entries@, entries@.len() as int)[k]],
        ) by {
            assert(group@[k].entry == entries@[picked(entries@, entries@.len() as int)[k]]);
        }
        out
    }

    /// Validates a review start for the word's entry: the sense must belong to the
    /// word, the example to that sense (or to the word when no sense is given).
    pub fn start(&self, entry: &WordEntry, sense_id: Option<SenseId>, example_id: Option<ExampleId>) -> (r: Result<(), ReviewError>)
        ensures
            r is Ok <==> start_rule(*entry, sense_id, example_id),
            r is Err ==> r == Err::<(), ReviewError>(ReviewError::NoWordData),
    {
        let selected = match sense_id {
            Some(id) => match find_sense(entry, id) {
                Some(i) => Some(i),
                None => return Err(ReviewError::NoWordData),
            },
            None => None,
        };
        match example_id {
            Some(x) => {
                let valid = match selected {
                    Some(i) => sense_holds_example(entry, i, x),
                    None => entry_holds_example(entry, x),
                };
                if !valid {
                    return Err(ReviewError::NoWordData);
                }
            },
            None => {},
        }
        Ok(())
    }

    /// Hint `hint_no` of a pending review that has used `hints_used` hints.
    pub fn hint(&self, entry: &WordEntry, sense_id: Option<SenseId>, hints_used: u32, hint_no: u32) -> (r: Result<Hint, ReviewError>)
        requires
            hints_used < u32::MAX,
        ensures
            match hint_request_rule(hint_no, hints_used) {
                Err(e) => r == Err::<Hint, ReviewError>(e),
                Ok(()) => match hint_rule(*entry, sense_id, hint_no) {
                    None => r == Err::<Hint, ReviewError>(ReviewError::NoWordData),
                    Some(v) => r matches Ok(h) && hint_view(h) == v,
                },
            },
    {
        match check_hint_request(hint_no, hints_used) {
            Err(e) => Err(e),
            Ok(()) => hint_for(entry, sense_id, hint_no),
        }
    }

    /// Grades a submitted answer against the word after `hints_used` hints.
    pub fn submit(&self, entry: &WordEntry, answer: Option<String>, hints_used: u32) -> (r: Grade)
        ensures
            r.correct == answer_correct(answer_view(answer), entry.word@),
            r.quality == quality_of(r.correct, hints_used),
            r.answered == answer is Some,
    {
        let correct = self.practice_check(entry, answer.clone());
        Grade { correct, quality: quality_for(correct, hints_used), answered: answer.is_some() }
    }

    /// Read-only check of a practice answer (same rule as formal grading).
    pub fn practice_check(&self, entry: &WordEntry, answer: Option<String>) -> (r: bool)
        ensures
            r == answer_correct(answer_view(answer), entry.word@),
    {
        match answer {
            Some(a) => is_correct(a.as_str(), entry.word.as_str()),
            None => false,
        }
    }

    /// Read-only practice hint: numbers outside 1..=3 are refused.
    pub fn practice_hint(&self, entry: &WordEntry, sense_id: Option<SenseId>, hint_no: u32) -> (r: Result<Hint, ReviewError>)
        ensures
            !(1 <= hint_no <= 3) ==> r == Err::<Hint, ReviewError>(ReviewError::InvalidHint(hint_no)),
            1 <= hint_no <= 3 ==> match hint_rule(*entry, sense_id, hint_no) {
                None => r == Err::<Hint, ReviewError>(ReviewError::NoWordData),
                Some(v) => r matches Ok(h) && hint_view(h) == v,
            },
    {
        if hint_no < 1 || hint_no > 3 {
            return Err(ReviewError::InvalidHint(hint_no));
        }
        hint_for(entry, sense_id, hint_no)
    }
}

/// An entry can form a group item: it has senses and a non-blank definition prompt.
pub open spec fn group_eligible(e: WordEntry) -> bool {
    e.senses@.len() > 0 && trim(definition_prompt(e).1).len() > 0
}

/// The indices of the entries picked among the first `n`: eligible ones, in
/// order, until the session limit is reached.
pub open spec fn picked(entries: Seq<WordEntry>, n: int) -> Seq<int>
    decreases n,
{
    if n <= 0 {
        Seq::empty()
    } else {
        let prev = picked(entries, n - 1);
        if prev.len() < REVIEW_SESSION_LIMIT && group_eligible(entries[n - 1]) {
            prev.push(n - 1)
        } else {
            prev
        }
    }
}

/// The item of a group entry: the word, its definition prompt, from the dictionary.
pub open spec fn group_item(item: ReviewItem, e: WordEntry) -> bool {
    let p = definition_prompt(e);
    &&& item.word_id == e.id
    &&& item.kind == p.0
    &&& item.prompt@ == p.1
    &&& item.sense_id == p.2
    &&& item.example_id == p.3
    &&& item.source == PromptSource::Dictionary
}

proof fn lemma_picked_bounds(entries: Seq<WordEntry>, n: int)
    requires
        0 <= n,
    ensures
        picked(entries, n).len() <= REVIEW_SESSION_LIMIT,
        picked(entries, n).len() <= n,
        forall|k: int| 0 <= k < picked(entries, n).len() ==> 0 <= #[trigger] picked(entries, n)[k] < n,
    decreases n,
{
    if n > 0 {
        lemma_picked_bounds(entries, n - 1);
    }
}

/// A group never holds more than the session limit, and only eligible entries.
pub proof fn lemma_group_capped(entries: Seq<WordEntry>)
    ensures
        picked(entries, entries.len() as int).len() <= REVIEW_SESSION_LIMIT,
        forall|k: int|
            0 <= k < picked(entries, entries.len() as int).len() ==> group_eligible(
                entries[#[trigger] picked(entries, entries.len() as int)[k]],
            ),
{
    lemma_picked_bounds(entries, entries.len() as int);
    lemma_picked_eligible(entries, entries.len() as int);
}

proof fn lemma_picked_eligible(entries: Seq<WordEntry>, n: int)
    requires
        0 <= n <= entries.len(),
    ensures
        forall|k: int| 0 <= k < picked(entries, n).len() ==> group_eligible(entries[#[trigger] picked(entries, n)[k]]),
    decreases n,
{
    if n > 0 {
        lemma_picked_eligible(entries, n - 1);
        let prev = picked(entries, n - 1);
        assert forall|k: int| 0 <= k < picked(entries, n).len() implies group_eligible(
            entries[#[trigger] picked(entries, n)[k]],
        ) by {
            if k < prev.len() {
                assert(picked(entries, n)[k] == prev[k]);
            }
        }
    }
}

// ── pending reviews ───────────────────────────────────────────────

/// A started review that is not completed yet.
#[derive(Clone, Copy, Debug, PartialEq, Eq, Structural)]
pub struct PendingReview {
    pub word_id: WordId,
    pub sense_id: Option<SenseId>,
    pub hints_used: u32,
}

/// A stored review row (id, word id, sense id, hints used, completion time).
pub type PendingReviewRow = (i64, i64, Option<i64>, i64, Option<String>);

/// The hint count as stored, read back: negative counts as none, larger values are
/// cut to 32 bits.
pub open spec fn hints_of(h: i64) -> u32 {
    if h < 0 {
        0
    } else {
        h as u32
    }
}

/// Reading the review row of `review_id`: a missing row is not found, a completed
/// one is refused, otherwise the pending review.
pub open spec fn pending_rule(review_id: ReviewId, row: Option<(i64, i64, Option<i64>, i64, bool)>) -> Result<PendingReview, ReviewError> {
    match row {
        None => Err(ReviewError::NotFound(review_id.0)),
        Some((id, word_id, sense_id, hints, completed)) => if completed {
            Err(ReviewError::AlreadyCompleted(id))
        } else {
            Ok(
                PendingReview {
                    word_id: WordId(word_id),
                    sense_id: match sense_id {
                        Some(s) => Some(SenseId(s)),
                        None => None,
                    },
                    hints_used: hints_of(hints),
                },
            )
        },
    }
}

/// Reads the review row of `review_id` (see `pending_rule`).
pub fn decode_pending(review_id: ReviewId, row: Option<PendingReviewRow>) -> (r: Result<PendingReview, ReviewError>)
    ensures
        r == pending_rule(
            review_id,
            match row {
                None => None,
                Some((id, w, s, h, c)) => Some((id, w, s, h, c is Some)),
            },
        ),
{
    match row {
        None => Err(ReviewError::NotFound(review_id.0)),
        Some((id, word_id, sense_id, hints, completed)) => {
            if completed.is_some() {
                return Err(ReviewError::AlreadyCompleted(id));
            }
            let hints_used: u32 = if hints < 0 {
                0
            } else {
                #[verifier::truncate] (hints as u32)
            };
            let sense = match sense_id {
                Some(s) => Some(SenseId(s)),
                None => None,
            };
            Ok(PendingReview { word_id: WordId(word_id), sense_id: sense, hints_used })
        },
    }
}

/// The attempt action recorded for hint `hint_no` ("hint1", "hint2", else "hint3").
pub open spec fn hint_action_name(hint_no: u32) -> Seq<char> {
    if hint_no == 1 {
        "hint1"@
    } else if hint_no == 2 {
        "hint2"@
    } else {
        "hint3"@
    }
}

/// The attempt action of a hint request (see `hint_action_name`).
pub fn hint_action(hint_no: u32) -> (r: &'static str)
    ensures
        r@ == hint_action_name(hint_no),
{
    if hint_no == 1 {
        "hint1"
    } else if hint_no == 2 {
        "hint2"
    } else {
        "hint3"
    }
}

/// The attempt action of a submission: "answer" when an answer was given, else
/// "reveal".
pub fn submit_action(g: &Grade) -> (r: &'static str)
    ensures
        r@ == (if g.correct || g.answered {
            "answer"@
        } else {
            "reveal"@
        }),
{
    if g.correct || g.answered {
        "answer"
    } else {
        "reveal"
    }
}

} // verus!
