//! The embedded seed vocabulary: which seed words are imported and the rows
//! they become.

use vstd::prelude::*;
use crate::text::chars_of;
use super::engine::{normalize_word, normalized};
use super::store::{reads_as, strings_view};

verus! {

/// The embedded seed vocabulary as a dictionary source.
#[derive(Clone, Copy, Debug, PartialEq, Eq, Structural)]
pub struct SeedProvider;

impl SeedProvider {
    /// The source name written with every imported word.
    pub fn name(&self) -> (r: &'static str)
        ensures
            r@ == "seed"@,
    {
        "seed"
    }
}

/// An example sentence of a seed sense.
#[derive(Clone, Debug)]
pub struct SeedExample {
    pub text: String,
    pub translation: Option<String>,
}

/// A sense of a seed word, with its examples in order.
#[derive(Clone, Debug)]
pub struct SeedSense {
    pub pos: Option<String>,
    pub english: String,
    pub chinese: Option<String>,
    pub level: Option<String>,
    pub examples: Vec<SeedExample>,
}

/// A collocation of a seed word.
#[derive(Clone, Debug)]
pub struct SeedCollocation {
    pub text: String,
    pub gloss: Option<String>,
}

/// A seed word as the seed file gives it; `forms` are the inflected forms (the
/// values of the file's form table).
#[derive(Clone, Debug)]
pub struct SeedWord {
    pub word: String,
    pub phonetic: Option<String>,
    pub frequency_rank: Option<i64>,
    pub senses: Vec<SeedSense>,
    pub collocations: Vec<SeedCollocation>,
    pub synonyms: Vec<String>,
    pub antonyms: Vec<String>,
    pub word_family: Vec<String>,
    pub forms: Vec<String>,
}

/// The rows of one seed word: the head row (word lists as JSON text), the senses
/// and collocations in order (their position is their order index), and the forms
/// that map to the word.
#[derive(Clone, Debug)]
pub struct SeedRecord {
    pub word: String,
    pub display: String,
    pub phonetic: Option<String>,
    pub frequency_rank: Option<i64>,
    pub synonyms: String,
    pub antonyms: String,
    pub word_family: String,
    pub senses: Vec<SeedSense>,
    pub collocations: Vec<SeedCollocation>,
    pub forms: Vec<String>,
}

/// The JSON text that `serde_json::to_string` writes for a list of strings.
pub uninterp spec fn json_text(l: Seq<Seq<char>>) -> Seq<char>;

/// Writes a list of strings as JSON with `serde_json::to_string` ("[]" should it
/// fail; for a list of strings it does not). Claims that the text is the one named
/// by `json_text` and that `serde_json` reads the same strings back from it.
#[verifier::external_body]
fn json_list_text(v: &Vec<String>) -> (r: String)
    ensures
        r@ == json_text(strings_view(v@)),
        reads_as(r@, strings_view(v@)),
{
    serde_json::to_string(v).unwrap_or_else(|_| "[]".to_string())
}

/// The forms kept from the first `n` given forms: normalised, not blank and not
/// the word itself.
pub open spec fn kept_forms(forms: Seq<Seq<char>>, n: int, word: Seq<char>) -> Seq<Seq<char>>
    decreases n,
{
    if n <= 0 {
        Seq::empty()
    } else {
        let prev = kept_forms(forms, n - 1, word);
        let f = normalized(forms[n - 1]);
        if f.len() > 0 && f != word {
            prev.push(f)
        } else {
            prev
        }
    }
}

fn map_forms(forms: &Vec<String>, word: &String) -> (r: Vec<String>)
    ensures
        strings_view(r@) == kept_forms(strings_view(forms@), forms@.len() as int, word@),
{
    let ghost fv = strings_view(forms@);
    let mut out: Vec<String> = Vec::new();
    let mut i: usize = 0;
    while i < forms.len()
        invariant
            i <= forms.len(),
            fv == strings_view(forms@),
            strings_view(out@) == kept_forms(fv, i as int, word@),
        decreases forms.len() - i,
    {
        let ghost before = out@;
        let f = normalize_word(forms[i].as_str());
        if chars_of(f.as_str()).len() > 0 && f != *word {
            out.push(f);
            assert(strings_view(out@) =~= strings_view(before).push(normalized(fv[i as int])));
        }
        i += 1;
    }
    out
}

/// The rows of a seed word, or `None` when it is skipped: a word that normalises
/// to nothing, or a word without senses. The word lists are stored as JSON text
/// that reads back as the same lists.
pub fn seed_record(w: SeedWord) -> (r: Option<SeedRecord>)
    ensures
        r is None <==> (normalized(w.word@).len() == 0 || w.senses@.len() == 0),
        r matches Some(rec) ==> {
            &&& rec.word@ == normalized(w.word@)
            &&& rec.display == w.word
            &&& rec.phonetic == w.phonetic
            &&& rec.frequency_rank == w.frequency_rank
            &&& rec.synonyms@ == json_text(strings_view(w.synonyms@))
            &&& rec.antonyms@ == json_text(strings_view(w.antonyms@))
            &&& rec.word_family@ == json_text(strings_view(w.word_family@))
            &&& reads_as(rec.synonyms@, strings_view(w.synonyms@))
            &&& reads_as(rec.antonyms@, strings_view(w.antonyms@))
            &&& reads_as(rec.word_family@, strings_view(w.word_family@))
            &&& rec.senses == w.senses
            &&& rec.collocations == w.collocations
            &&& strings_view(rec.forms@) == kept_forms(strings_view(w.forms@), w.forms@.len() as int, rec.word@)
        },
{
    let word = normalize_word(w.word.as_str());
    if chars_of(word.as_str()).len() == 0 || w.senses.len() == 0 {
        return None;
    }
    let synonyms = json_list_text(&w.synonyms);
    let antonyms = json_list_text(&w.antonyms);
    let word_family = json_list_text(&w.word_family);
    let forms = map_forms(&w.forms, &word);
    Some(SeedRecord {
        word,
        display: w.word,
        phonetic: w.phonetic,
        frequency_rank: w.frequency_rank,
        synonyms,
        antonyms,
        word_family,
        senses: w.senses,
        collocations: w.collocations,
        forms,
    })
}

} // verus!
