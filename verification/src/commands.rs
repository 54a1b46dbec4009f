//! What the front-end commands return, and how they combine the memory records
//! with the dictionary's head words.

use vstd::prelude::*;
use crate::dictionary::model::{LookupOutcome, WordBrief};
use crate::domain::{ComprehensionLevel, EncounterId, WordId};
use crate::memory::model::{MemoryStatus, RecentVisit};
use crate::memory::service::DueWord;
use crate::text::copy_opt_string;

verus! {

/// The smoke-test answer: schema version, number of words, whether full-text
/// search answers, whether the full dictionary is present.
#[derive(Clone, Copy, Debug, PartialEq, Eq, Structural)]
pub struct AppInfo {
    pub schema_version: i64,
    pub word_count: i64,
    pub fts_ok: bool,
    pub dictionary_ready: bool,
}

/// The one-line memory summary shown with a lookup; no status means a new word.
#[derive(Clone, Copy, Debug, PartialEq, Eq, Structural)]
pub struct MemorySummary {
    pub status: Option<MemoryStatus>,
    pub visit_count: u32,
    pub high_priority: bool,
}

/// The answer to a lookup: the outcome, the visit it opened (on a hit), the
/// memory summary and the visit's comprehension level.
#[derive(Clone, Debug)]
pub struct LookupWordResult {
    pub outcome: LookupOutcome,
    pub encounter_id: Option<EncounterId>,
    pub memory: Option<MemorySummary>,
    pub comprehension_level: Option<ComprehensionLevel>,
}

/// A word of the recent list (visit time in Unix milliseconds).
#[derive(Clone, Debug)]
pub struct RecentWord {
    pub word: String,
    pub display: String,
    pub phonetic: Option<String>,
    pub visited_at: i64,
    pub comprehension_level: ComprehensionLevel,
}

/// A word of the fading list (due time in Unix milliseconds).
#[derive(Clone, Debug)]
pub struct FadingWord {
    pub word: String,
    pub display: String,
    pub high_priority: bool,
    pub next_review_at: Option<i64>,
}

/// A word asked for in example generation.
#[derive(Clone, Copy, Debug, PartialEq, Eq, Structural)]
pub struct AiGenItem {
    pub word_id: i64,
    pub sense_id: Option<i64>,
}

/// The head word of an id among the fetched ones (the first with that id).
pub open spec fn brief_of(briefs: Seq<(WordId, WordBrief)>, id: WordId) -> Option<WordBrief>
    decreases briefs.len(),
{
    if briefs.len() == 0 {
        None
    } else if briefs[0].0 == id {
        Some(briefs[0].1)
    } else {
        brief_of(briefs.drop_first(), id)
    }
}

fn find_brief(briefs: &Vec<(WordId, WordBrief)>, id: WordId) -> (r: Option<usize>)
    ensures
        match r {
            Some(k) => k < briefs@.len() && brief_of(briefs@, id) == Some(briefs@[k as int].1),
            None => brief_of(briefs@, id) is None,
        },
{
    let mut i: usize = 0;
    assert(briefs@.subrange(0, briefs@.len() as int) =~= briefs@);
    while i < briefs.len()
        invariant
            i <= briefs.len(),
            brief_of(briefs@, id) == brief_of(briefs@.subrange(i as int, briefs@.len() as int), id),
        decreases briefs.len() - i,
    {
        assert(briefs@.subrange(i as int, briefs@.len() as int).drop_first() =~= briefs@.subrange(
            i + 1,
            briefs@.len() as int,
        ));
        if briefs[i].0.0 == id.0 {
            assert(briefs@[i as int].0 == id);
            return Some(i);
        }
        i += 1;
    }
    None
}

/// The recent list of the first `n` visits: each visit whose word has a head word,
/// in order.
pub open spec fn recent_of(visits: Seq<RecentVisit>, briefs: Seq<(WordId, WordBrief)>, n: int) -> Seq<(WordBrief, RecentVisit)>
    decreases n,
{
    if n <= 0 {
        Seq::empty()
    } else {
        match brief_of(briefs, visits[n - 1].word_id) {
            Some(b) => recent_of(visits, briefs, n - 1).push((b, visits[n - 1])),
            None => recent_of(visits, briefs, n - 1),
        }
    }
}

pub open spec fn recent_matches(w: RecentWord, b: WordBrief, v: RecentVisit) -> bool {
    &&& w.word == b.word
    &&& w.display == b.display
    &&& w.phonetic == b.phonetic
    &&& w.visited_at == v.visited_at
    &&& w.comprehension_level == v.comprehension_level
}

/// The recent list: the visits, in order, that have a head word, with it; a visit
/// of a word missing from the dictionary is left out.
pub fn recent_words(visits: &Vec<RecentVisit>, briefs: &Vec<(WordId, WordBrief)>) -> (r: Vec<RecentWord>)
    ensures
        r@.len() == recent_of(visits@, briefs@, visits@.len() as int).len(),
        forall|k: int| 0 <= k < r@.len() ==> recent_matches(
            #[trigger] r@[k],
            recent_of(visits@, briefs@, visits@.len() as int)[k].0,
            recent_of(visits@, briefs@, visits@.len() as int)[k].1,
        ),
{
    let mut out: Vec<RecentWord> = Vec::new();
    let mut i: usize = 0;
    while i < visits.len()
        invariant
            i <= visits.len(),
            out@.len() == recent_of(visits@, briefs@, i as int).len(),
            forall|k: int| 0 <= k < out@.len() ==> recent_matches(
                #[trigger] out@[k],
                recent_of(visits@, briefs@, i as int)[k].0,
                recent_of(visits@, briefs@, i as int)[k].1,
            ),
        decreases visits.len() - i,
    {
        let v = visits[i];
        match find_brief(briefs, v.word_id) {
            Some(j) => {
                let b = &briefs[j].1;
                out.push(
                    RecentWord {
                        word: b.word.clone(),
                        display: b.display.clone(),
                        phonetic: copy_opt_string(&b.phonetic),
                        visited_at: v.visited_at,
                        comprehension_level: v.comprehension_level,
                    },
                );
            },
            None => {},
        }
        i += 1;
    }
    out
}

/// The fading list of the first `n` due words: each due word that has a head word,
/// in order.
pub open spec fn fading_of(due: Seq<DueWord>, briefs: Seq<(WordId, WordBrief)>, n: int) -> Seq<(WordBrief, DueWord)>
    decreases n,
{
    if n <= 0 {
        Seq::empty()
    } else {
        match brief_of(briefs, due[n - 1].word_id) {
            Some(b) => fading_of(due, briefs, n - 1).push((b, due[n - 1])),
            None => fading_of(due, briefs, n - 1),
        }
    }
}

pub open spec fn fading_matches(w: FadingWord, b: WordBrief, d: DueWord) -> bool {
    &&& w.word == b.word
    &&& w.display == b.display
    &&& w.high_priority == d.high_priority
    &&& w.next_review_at == d.next_review_at
}

/// The fading list: the due words, in order, that have a head word, at most `limit`.
pub fn fading_words(due: &Vec<DueWord>, briefs: &Vec<(WordId, WordBrief)>, limit: usize) -> (r: Vec<FadingWord>)
    ensures
        r@.len() == if fading_of(due@, briefs@, due@.len() as int).len() <= limit {
            fading_of(due@, briefs@, due@.len() as int).len() as int
        } else {
            limit as int
        },
        forall|k: int| 0 <= k < r@.len() ==> fading_matches(
            #[trigger] r@[k],
            fading_of(due@, briefs@, due@.len() as int)[k].0,
            fading_of(due@, briefs@, due@.len() as int)[k].1,
        ),
{
    let mut out: Vec<FadingWord> = Vec::new();
    let mut i: usize = 0;
    while i < due.len()
        invariant
            i <= due.len(),
            out@.len() == fading_of(due@, briefs@, i as int).len(),
            forall|k: int| 0 <= k < out@.len() ==> fading_matches(
                #[trigger] out@[k],
                fading_of(due@, briefs@, i as int)[k].0,
                fading_of(due@, briefs@, i as int)[k].1,
            ),
        decreases due.len() - i,
    {
        let d = due[i];
        match find_brief(briefs, d.word_id) {
            Some(j) => {
                let b = &briefs[j].1;
                out.push(
                    FadingWord {
                        word: b.word.clone(),
                        display: b.display.clone(),
                        high_priority: d.high_priority,
                        next_review_at: d.next_review_at,
                    },
                );
            },
            None => {},
        }
        i += 1;
    }
    if out.len() > limit {
        out.truncate(limit);
    }
    out
}

} // verus!
