//! Review items, hints and prompt kinds.

use vstd::prelude::*;
use crate::domain::{ExampleId, SenseId, WordId};

verus! {

/// The kind of a prompt.
#[derive(Clone, Copy, Debug, PartialEq, Eq, Structural)]
pub enum PromptKind {
    /// An example sentence with the word blanked out.
    Cloze,
    /// The English definition, answer by the word.
    Definition,
    /// The Chinese definition, as the last fallback.
    DefinitionZh,
}

/// Where a prompt came from: the dictionary text or a generated sentence.
#[derive(Clone, Copy, Debug, PartialEq, Eq, Structural)]
pub enum PromptSource {
    Dictionary,
    Ai,
}

/// A review item. It never holds the answer.
#[derive(Clone, Debug)]
pub struct ReviewItem {
    pub word_id: WordId,
    /// The blanked sentence or the definition text, by `kind`.
    pub prompt: String,
    pub kind: PromptKind,
    pub source: PromptSource,
    pub sense_id: Option<SenseId>,
    /// Always `None` for generated prompts.
    pub example_id: Option<ExampleId>,
}

/// A graded hint.
#[derive(Clone, Debug)]
pub enum Hint {
    /// 1: first letter and a mask of the same length.
    Mask { text: String },
    /// 2: the English definition.
    English { text: String },
    /// 3: the Chinese definition (last level).
    Chinese { text: String },
}

} // verus!
