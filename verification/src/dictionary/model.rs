//! Dictionary entries as the lookup returns them.

use vstd::prelude::*;
use crate::domain::{ExampleId, SenseId, WordId};

verus! {

/// A full dictionary entry.
#[derive(Clone, Debug)]
pub struct WordEntry {
    pub id: WordId,
    pub word: String,
    pub display: String,
    pub phonetic: Option<String>,
    pub senses: Vec<Sense>,
    pub collocations: Vec<Collocation>,
    pub synonyms: Vec<String>,
    pub antonyms: Vec<String>,
    pub word_family: Vec<String>,
    pub frequency_rank: Option<u32>,
}

/// One sense of a word, with its examples in order.
#[derive(Clone, Debug)]
pub struct Sense {
    pub id: SenseId,
    pub pos: Option<String>,
    pub english_definition: String,
    pub chinese_definition: Option<String>,
    /// CEFR label A1..C2, when known.
    pub level: Option<String>,
    pub examples: Vec<Example>,
}

/// An example sentence of a sense.
#[derive(Clone, Debug)]
pub struct Example {
    pub id: ExampleId,
    pub text: String,
    pub translation: Option<String>,
}

/// A collocation of a word.
#[derive(Clone, Debug)]
pub struct Collocation {
    pub text: String,
    pub gloss: Option<String>,
}

/// A search suggestion shown while typing.
#[derive(Clone, Debug)]
pub struct Suggestion {
    pub word: String,
    pub display: String,
    pub phonetic: Option<String>,
    pub frequency_rank: Option<u32>,
}

/// Head-word display data for lists.
#[derive(Clone, Debug)]
pub struct WordBrief {
    pub word: String,
    pub display: String,
    pub phonetic: Option<String>,
}

/// The outcome of a lookup: the entry, or suggestions on a miss.
#[derive(Clone, Debug)]
pub enum LookupOutcome {
    Hit { entry: WordEntry },
    Miss { suggestions: Vec<Suggestion> },
}

} // verus!
