//! Encounter sources, recall qualities, memory events and status buckets.

use vstd::prelude::*;
use crate::domain::{ComprehensionLevel, EncounterId, WordId};
use crate::text::str_equals;

verus! {

/// Where an encounter came from.
#[derive(Clone, Copy, Debug, PartialEq, Eq, Structural)]
pub enum EncounterSource {
    Lookup,
    Review,
}

/// The storage name of a source.
pub open spec fn source_name(s: EncounterSource) -> Seq<char> {
    match s {
        EncounterSource::Lookup => "lookup"@,
        EncounterSource::Review => "review"@,
    }
}

/// The source stored under a name, if any.
pub open spec fn source_of_name(s: Seq<char>) -> Option<EncounterSource> {
    if s == "lookup"@ {
        Some(EncounterSource::Lookup)
    } else if s == "review"@ {
        Some(EncounterSource::Review)
    } else {
        None
    }
}

impl EncounterSource {
    pub fn as_str(self) -> (r: &'static str)
        ensures
            r@ == source_name(self),
    {
        match self {
            EncounterSource::Lookup => "lookup",
            EncounterSource::Review => "review",
        }
    }

    pub fn from_db(s: &str) -> (r: Option<EncounterSource>)
        ensures
            r == source_of_name(s@),
    {
        if str_equals(s, "lookup") {
            Some(EncounterSource::Lookup)
        } else if str_equals(s, "review") {
            Some(EncounterSource::Review)
        } else {
            None
        }
    }
}

/// One lookup visit (times in Unix milliseconds).
#[derive(Clone, Copy, Debug, PartialEq, Eq, Structural)]
pub struct Encounter {
    pub id: EncounterId,
    pub word_id: WordId,
    pub timestamp: i64,
    pub source: EncounterSource,
    pub comprehension_level: ComprehensionLevel,
}

/// The latest visit of a word, for the recent list (the word text comes from the
/// dictionary).
#[derive(Clone, Copy, Debug, PartialEq, Eq, Structural)]
pub struct RecentVisit {
    pub word_id: WordId,
    pub visited_at: i64,
    pub comprehension_level: ComprehensionLevel,
}

/// How well a word was recalled in a review.
#[derive(Clone, Copy, Debug, PartialEq, Eq, Structural)]
pub enum RecallQuality {
    Excellent,
    Good,
    Hard,
    Poor,
    Forgotten,
}

/// The storage name of a quality.
pub open spec fn quality_name(q: RecallQuality) -> Seq<char> {
    match q {
        RecallQuality::Excellent => "excellent"@,
        RecallQuality::Good => "good"@,
        RecallQuality::Hard => "hard"@,
        RecallQuality::Poor => "poor"@,
        RecallQuality::Forgotten => "forgotten"@,
    }
}

/// The quality stored under a name, if any.
pub open spec fn quality_of_name(s: Seq<char>) -> Option<RecallQuality> {
    if s == "excellent"@ {
        Some(RecallQuality::Excellent)
    } else if s == "good"@ {
        Some(RecallQuality::Good)
    } else if s == "hard"@ {
        Some(RecallQuality::Hard)
    } else if s == "poor"@ {
        Some(RecallQuality::Poor)
    } else if s == "forgotten"@ {
        Some(RecallQuality::Forgotten)
    } else {
        None
    }
}

/// Poor 1, Hard 2, Good 3, Excellent 4; Forgotten 0.
pub open spec fn quality_index(q: RecallQuality) -> nat {
    match q {
        RecallQuality::Poor => 1,
        RecallQuality::Hard => 2,
        RecallQuality::Good => 3,
        RecallQuality::Excellent => 4,
        RecallQuality::Forgotten => 0,
    }
}

impl RecallQuality {
    pub fn as_str(self) -> (r: &'static str)
        ensures
            r@ == quality_name(self),
    {
        match self {
            RecallQuality::Excellent => "excellent",
            RecallQuality::Good => "good",
            RecallQuality::Hard => "hard",
            RecallQuality::Poor => "poor",
            RecallQuality::Forgotten => "forgotten",
        }
    }

    pub fn from_db(s: &str) -> (r: Option<RecallQuality>)
        ensures
            r == quality_of_name(s@),
    {
        if str_equals(s, "excellent") {
            Some(RecallQuality::Excellent)
        } else if str_equals(s, "good") {
            Some(RecallQuality::Good)
        } else if str_equals(s, "hard") {
            Some(RecallQuality::Hard)
        } else if str_equals(s, "poor") {
            Some(RecallQuality::Poor)
        } else if str_equals(s, "forgotten") {
            Some(RecallQuality::Forgotten)
        } else {
            None
        }
    }

    /// Index: Poor=1 … Excellent=4; Forgotten=0 (handled on its own branch).
    pub fn index(self) -> (r: usize)
        ensures
            r == quality_index(self),
    {
        match self {
            RecallQuality::Poor => 1,
            RecallQuality::Hard => 2,
            RecallQuality::Good => 3,
            RecallQuality::Excellent => 4,
            RecallQuality::Forgotten => 0,
        }
    }
}

/// Mastery bucket of a word (computed from its strength, never stored).
#[derive(Clone, Copy, Debug, PartialEq, Eq, Structural)]
pub enum MemoryStatus {
    Learning,
    Familiar,
    Stable,
}

/// One event of a word's memory stream; times are Unix milliseconds (UTC).
#[derive(Clone, Copy, Debug, PartialEq, Eq, Structural)]
pub enum MemoryEvent {
    Visit { at: i64, level: ComprehensionLevel },
    ReviewDone { at: i64, quality: RecallQuality },
}

/// Reading back the storage name of any quality gives that quality.
pub proof fn lemma_quality_name_roundtrip(q: RecallQuality)
    ensures
        quality_of_name(quality_name(q)) == Some(q),
{
    reveal_strlit("excellent");
    reveal_strlit("good");
    reveal_strlit("hard");
    reveal_strlit("poor");
    reveal_strlit("forgotten");
    assert("good"@[0] != "hard"@[0]);
    assert("good"@[0] != "poor"@[0]);
    assert("hard"@[0] != "poor"@[0]);
    assert("excellent"@[0] != "forgotten"@[0]);
    assert("excellent"@.len() != "good"@.len());
}

/// Reading back the storage name of any source gives that source.
pub proof fn lemma_source_name_roundtrip(s: EncounterSource)
    ensures
        source_of_name(source_name(s)) == Some(s),
{
    reveal_strlit("lookup");
    reveal_strlit("review");
    assert("lookup"@[0] != "review"@[0]);
}

} // verus!
