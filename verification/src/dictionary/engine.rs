//! Head-word normalisation, shared by lookup, import and grading.

use vstd::prelude::*;
use crate::domain::WordId;
use super::model::{LookupOutcome, WordEntry};
use crate::text::{chars_of, nfkc, str_lowercase, string_of, strip, strip_chars, to_lowercase, trim, trim_chars, nfkc_form, StripSet};

verus! {

/// Curly and typographic quotes folded to straight ones.
pub open spec fn fold_quote(c: char) -> char {
    if c == '\u{2018}' || c == '\u{2019}' || c == '`' || c == '\u{b4}' {
        '\''
    } else if c == '\u{201c}' || c == '\u{201d}' {
        '"'
    } else {
        c
    }
}

/// The normal form of a head word: NFKC, trimmed, lower-cased, quotes folded to
/// straight ones, then straight quotes removed from both ends.
pub open spec fn normalized(s: Seq<char>) -> Seq<char> {
    strip(
        str_lowercase(trim(nfkc_form(s))).map_values(|c: char| fold_quote(c)),
        StripSet::QuoteMarks,
    )
}

fn fold_quote_char(c: char) -> (r: char)
    ensures
        r == fold_quote(c),
{
    if c == '\u{2018}' || c == '\u{2019}' || c == '`' || c == '\u{b4}' {
        '\''
    } else if c == '\u{201c}' || c == '\u{201d}' {
        '"'
    } else {
        c
    }
}

/// Normalises a head word: NFKC (full width to half width), trim, lower case,
/// curly quotes folded to straight, surrounding straight quotes removed.
pub fn normalize_word(input: &str) -> (r: String)
    ensures
        r@ == normalized(input@),
{
    let n = nfkc(input);
    let n_chars = chars_of(n.as_str());
    let trimmed = trim_chars(&n_chars);
    let trimmed_s = string_of(&trimmed);
    let lower = to_lowercase(trimmed_s.as_str());
    let lower_chars = chars_of(lower.as_str());
    let mut folded: Vec<char> = Vec::new();
    let mut i: usize = 0;
    while i < lower_chars.len()
        invariant
            i <= lower_chars.len(),
            folded@ == lower_chars@.subrange(0, i as int).map_values(|c: char| fold_quote(c)),
        decreases lower_chars.len() - i,
    {
        folded.push(fold_quote_char(lower_chars[i]));
        proof {
            assert(lower_chars@.subrange(0, i + 1).map_values(|c: char| fold_quote(c)) =~= lower_chars@.subrange(
                0,
                i as int,
            ).map_values(|c: char| fold_quote(c)).push(fold_quote(lower_chars@[i as int])));
        }
        i += 1;
    }
    assert(lower_chars@.subrange(0, i as int) =~= lower_chars@);
    let stripped = strip_chars(&folded, StripSet::QuoteMarks);
    string_of(&stripped)
}

/// The query of a lookup or a suggestion request: the normalised input, or `None`
/// when nothing is left of it (a lookup is then a miss without suggestions, and a
/// suggestion request gives none).
pub fn lookup_query(input: &str) -> (r: Option<String>)
    ensures
        match r {
            Some(q) => q@ == normalized(input@) && q@.len() > 0,
            None => normalized(input@).len() == 0,
        },
{
    let q = normalize_word(input);
    if q.as_str().unicode_len() == 0 {
        None
    } else {
        Some(q)
    }
}


/// The step of the lookup chain whose query has just been answered.
#[derive(Clone, Copy, Debug, PartialEq, Eq, Structural)]
pub enum LookupStage {
    /// The normalised query was looked up as a head word.
    Exact,
    /// The query was looked up with diacritics folded.
    Folded,
    /// The query was looked up as an inflected form of a head word.
    Form,
    /// The head word of that form was loaded.
    HeadWord,
}

/// What the lookup chain does next.
#[derive(Debug)]
pub enum LookupAction {
    /// Look the query up with diacritics folded.
    QueryFolded(String),
    /// Look the query up as an inflected form.
    QueryForm(String),
    /// Load the entry of this head word.
    LoadHeadWord(WordId),
    /// Ask for prefix suggestions for this (non-empty) query.
    Suggest(String),
    /// The lookup is over.
    Finish(LookupOutcome),
}

/// The lookup chain: a hit at any step ends it; a miss on the exact query tries the
/// folded one, a miss there tries the inflected form, a form's head word is loaded;
/// when nothing is found the query is normalised once more, as a suggestion request
/// does, and suggestions are asked for it (none when nothing is left of it).
pub open spec fn lookup_rule(
    query: Seq<char>,
    stage: LookupStage,
    hit: Option<WordEntry>,
    head: Option<WordId>,
    r: LookupAction,
) -> bool {
    match hit {
        Some(e) => r == LookupAction::Finish(LookupOutcome::Hit { entry: e }),
        None => match stage {
            LookupStage::Exact => r matches LookupAction::QueryFolded(s) && s@ == query,
            LookupStage::Folded => r matches LookupAction::QueryForm(s) && s@ == query,
            _ => match (stage, head) {
                (LookupStage::Form, Some(id)) => r == LookupAction::LoadHeadWord(id),
                _ => if normalized(query).len() == 0 {
                    r matches LookupAction::Finish(LookupOutcome::Miss { suggestions }) && suggestions@.len() == 0
                } else {
                    r matches LookupAction::Suggest(s) && s@ == normalized(query)
                },
            },
        },
    }
}

/// The next step of the lookup chain for `query`, given what the query of `stage`
/// found: the entry of a hit, or (for the form query) the head word of the form.
pub fn lookup_next(query: &str, stage: LookupStage, hit: Option<WordEntry>, head: Option<WordId>) -> (r: LookupAction)
    ensures
        lookup_rule(query@, stage, hit, head, r),
{
    match hit {
        Some(entry) => LookupAction::Finish(LookupOutcome::Hit { entry }),
        None => match stage {
            LookupStage::Exact => LookupAction::QueryFolded(query.to_string()),
            LookupStage::Folded => LookupAction::QueryForm(query.to_string()),
            _ => {
                if let (LookupStage::Form, Some(id)) = (stage, head) {
                    return LookupAction::LoadHeadWord(id);
                }
                match lookup_query(query) {
                    None => LookupAction::Finish(LookupOutcome::Miss { suggestions: Vec::new() }),
                    Some(q) => LookupAction::Suggest(q),
                }
            },
        },
    }
}

} // verus!
