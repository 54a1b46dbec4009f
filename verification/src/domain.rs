//! Strongly typed row identifiers and the comprehension level of a visit.

use vstd::prelude::*;
use crate::text::str_equals;

verus! {

/// Row id of a dictionary word.
#[derive(Clone, Copy, Debug, PartialEq, Eq, Hash, Structural)]
pub struct WordId(pub i64);

/// Row id of a sense of a word.
#[derive(Clone, Copy, Debug, PartialEq, Eq, Hash, Structural)]
pub struct SenseId(pub i64);

/// Row id of an example sentence.
#[derive(Clone, Copy, Debug, PartialEq, Eq, Hash, Structural)]
pub struct ExampleId(pub i64);

/// Row id of an encounter (a visit of a word).
#[derive(Clone, Copy, Debug, PartialEq, Eq, Hash, Structural)]
pub struct EncounterId(pub i64);

/// Row id of a review.
#[derive(Clone, Copy, Debug, PartialEq, Eq, Hash, Structural)]
pub struct ReviewId(pub i64);

/// How much help the user needed to understand a word during one visit.
///
/// Ordered by help: `Context < EnglishDefinition < ChineseDefinition`;
/// `Unknown` is the initial value of a visit and counts like `ChineseDefinition`.
#[derive(Clone, Copy, Debug, PartialEq, Eq, Structural)]
pub enum ComprehensionLevel {
    /// Understood from the example sentence alone.
    Context,
    /// Needed the English definition.
    EnglishDefinition,
    /// Needed the Chinese definition (last hint).
    ChineseDefinition,
    /// Not yet disclosed / still not understood.
    Unknown,
}

/// The help rank of a level: larger means more help was needed.
pub open spec fn level_rank(l: ComprehensionLevel) -> nat {
    match l {
        ComprehensionLevel::Context => 0,
        ComprehensionLevel::EnglishDefinition => 1,
        ComprehensionLevel::ChineseDefinition => 2,
        ComprehensionLevel::Unknown => 2,
    }
}

/// The storage name of a level.
pub open spec fn level_name(l: ComprehensionLevel) -> Seq<char> {
    match l {
        ComprehensionLevel::Context => "context"@,
        ComprehensionLevel::EnglishDefinition => "english"@,
        ComprehensionLevel::ChineseDefinition => "chinese"@,
        ComprehensionLevel::Unknown => "unknown"@,
    }
}

/// The level stored under a name, if any.
pub open spec fn level_of_name(s: Seq<char>) -> Option<ComprehensionLevel> {
    if s == "context"@ {
        Some(ComprehensionLevel::Context)
    } else if s == "english"@ {
        Some(ComprehensionLevel::EnglishDefinition)
    } else if s == "chinese"@ {
        Some(ComprehensionLevel::ChineseDefinition)
    } else if s == "unknown"@ {
        Some(ComprehensionLevel::Unknown)
    } else {
        None
    }
}

impl ComprehensionLevel {
    /// Help rank: Context 0, English 1, Chinese and Unknown 2.
    pub fn help_rank(self) -> (r: u8)
        ensures
            r == level_rank(self),
    {
        match self {
            ComprehensionLevel::Context => 0,
            ComprehensionLevel::EnglishDefinition => 1,
            ComprehensionLevel::ChineseDefinition | ComprehensionLevel::Unknown => 2,
        }
    }

    /// The storage string of the level.
    pub fn as_str(self) -> (r: &'static str)
        ensures
            r@ == level_name(self),
    {
        match self {
            ComprehensionLevel::Context => "context",
            ComprehensionLevel::EnglishDefinition => "english",
            ComprehensionLevel::ChineseDefinition => "chinese",
            ComprehensionLevel::Unknown => "unknown",
        }
    }

    /// Parses a storage string; any other string gives `None`.
    pub fn from_db(s: &str) -> (r: Option<ComprehensionLevel>)
        ensures
            r == level_of_name(s@),
    {
        if str_equals(s, "context") {
            Some(ComprehensionLevel::Context)
        } else if str_equals(s, "english") {
            Some(ComprehensionLevel::EnglishDefinition)
        } else if str_equals(s, "chinese") {
            Some(ComprehensionLevel::ChineseDefinition)
        } else if str_equals(s, "unknown") {
            Some(ComprehensionLevel::Unknown)
        } else {
            None
        }
    }
}

/// Reading back the storage name of any level gives that level.
pub proof fn lemma_level_name_roundtrip(l: ComprehensionLevel)
    ensures
        level_of_name(level_name(l)) == Some(l),
{
    reveal_strlit("context");
    reveal_strlit("english");
    reveal_strlit("chinese");
    reveal_strlit("unknown");
    assert("english"@[0] != "context"@[0]);
    assert("chinese"@[1] != "context"@[1]);
    assert("chinese"@[1] != "english"@[1]);
    assert("unknown"@[0] != "context"@[0]);
    assert("unknown"@[0] != "english"@[0]);
    assert("unknown"@[0] != "chinese"@[0]);
}

/// More help needed means a strictly larger rank: Context < English < Chinese.
pub proof fn lemma_help_rank_orders_by_assistance()
    ensures
        level_rank(ComprehensionLevel::Context) < level_rank(ComprehensionLevel::EnglishDefinition),
        level_rank(ComprehensionLevel::EnglishDefinition) < level_rank(
            ComprehensionLevel::ChineseDefinition,
        ),
        level_rank(ComprehensionLevel::Unknown) == level_rank(ComprehensionLevel::ChineseDefinition),
{
}

} // verus!
