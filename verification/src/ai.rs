//! Optional generated example sentences: configuration, the in-memory key store,
//! the validation and blanking of model output, cache keys and request texts.
//!
//! Grading always stays local: a generated sentence is only accepted when the
//! target word occurs in it as a whole word, and it reaches the user blanked.

use vstd::prelude::*;
use crate::review::grader::{blank_word, cloze};
use crate::error::AppError;
use crate::dictionary::engine::{normalize_word, normalized};
use crate::text::{
    decimal, i64_text, u32_text, chars_of, copy_opt_string, is_whitespace, push_all, slice_chars, str_equals, string_of, strip_end, strip_end_chars, trim,
    trim_chars, whitespace, StripSet,
};

verus! {

/// The configuration view sent to the front end: it only says whether a key exists.
#[derive(Clone, Debug)]
pub struct AiConfigView {
    pub enabled: bool,
    pub base_url: String,
    pub model: String,
    pub has_key: bool,
}

/// The stored configuration (never the key).
#[derive(Clone, Debug)]
pub struct AiConfig {
    pub enabled: bool,
    pub base_url: String,
    pub model: String,
}

/// A word to generate a sentence for, with its chosen sense.
#[derive(Clone, Debug)]
pub struct GenWord {
    pub word_id: i64,
    pub sense_id: Option<i64>,
    pub word: String,
    pub english: String,
    pub chinese: Option<String>,
}

/// A validated, blanked generated prompt.
#[derive(Clone, Debug)]
pub struct AiExample {
    pub word_id: i64,
    pub sense_id: Option<i64>,
    pub sentence: String,
}

impl View for AiExample {
    type V = (i64, Option<i64>, Seq<char>);

    open spec fn view(&self) -> Self::V {
        (self.word_id, self.sense_id, self.sentence@)
    }
}

/// A key store held in memory (for tests; the application keeps the key in the
/// operating system's credential store).
pub struct MemoryKeyStore {
    key: Option<String>,
}

/// The key as characters.
pub open spec fn key_view(k: Option<String>) -> Option<Seq<char>> {
    match k {
        Some(s) => Some(s@),
        None => None,
    }
}

impl MemoryKeyStore {
    /// The characters of the stored key, if any.
    pub closed spec fn stored(&self) -> Option<Seq<char>> {
        key_view(self.key)
    }

    /// An empty store.
    pub fn new() -> (r: MemoryKeyStore)
        ensures
            r.stored() is None,
    {
        MemoryKeyStore { key: None }
    }

    /// The stored key.
    pub fn get(&self) -> (r: Result<Option<String>, AppError>)
        ensures
            r matches Ok(k) && key_view(k) == self.stored(),
    {
        Ok(self.key.clone())
    }

    /// Stores a key, replacing any other.
    pub fn set(&mut self, key: &str) -> (r: Result<(), AppError>)
        ensures
            r is Ok,
            final(self).stored() == Some(key@),
    {
        self.key = Some(key.to_string());
        Ok(())
    }

    /// Removes the key; removing an absent key succeeds too.
    pub fn delete(&mut self) -> (r: Result<(), AppError>)
        ensures
            r is Ok,
            final(self).stored() is None,
    {
        self.key = None;
        Ok(())
    }
}

// ── model output ──────────────────────────────────────────────────

/// One item of the model's JSON array, as plain values: `word_id` and `sense_id`
/// when they are integers, `sentence` when it is a string.
#[derive(Clone, Debug)]
pub struct JsonItem {
    pub word_id: Option<i64>,
    pub sense_id: Option<i64>,
    pub sentence: Option<String>,
}

impl View for JsonItem {
    type V = (Option<i64>, Option<i64>, Option<Seq<char>>);

    open spec fn view(&self) -> Self::V {
        (
            self.word_id,
            self.sense_id,
            match self.sentence {
                Some(s) => Some(s@),
                None => None,
            },
        )
    }
}

/// The items that `serde_json` reads from a JSON array text (empty when the text
/// is not a JSON array): for each element, the integers under the first two keys
/// and the string under the third, where present.
pub uninterp spec fn json_items(
    text: Seq<char>,
    id_key: Seq<char>,
    sense_key: Seq<char>,
    sentence_key: Seq<char>,
) -> Seq<(Option<i64>, Option<i64>, Option<Seq<char>>)>;

/// The items of the model's output: `word_id`, `sense_id` and `sentence`.
pub open spec fn model_items(text: Seq<char>) -> Seq<(Option<i64>, Option<i64>, Option<Seq<char>>)> {
    json_items(text, "word_id"@, "sense_id"@, "sentence"@)
}

/// Parses the text as a `serde_json` array of values (an error gives no items) and
/// reads each value's fields under the given keys (`Value::get`, then `as_i64`,
/// `as_i64`, `as_str`); the items are named by `json_items`.
#[verifier::external_body]
fn parse_items(text: &str, id_key: &str, sense_key: &str, sentence_key: &str) -> (r: Vec<JsonItem>)
    ensures
        r@.map_values(|x: JsonItem| x@) == json_items(text@, id_key@, sense_key@, sentence_key@),
{
    let values: Vec<serde_json::Value> = serde_json::from_str(text).unwrap_or_default();
    values.iter().map(|v| JsonItem {
        word_id: v.get(id_key).and_then(|x| x.as_i64()),
        sense_id: v.get(sense_key).and_then(|x| x.as_i64()),
        sentence: v.get(sentence_key).and_then(|x| x.as_str()).map(|s| s.to_string()),
    }).collect()
}

/// The opening code fence with a language tag.
pub open spec fn fence_json() -> Seq<char> {
    seq!['`', '`', '`', 'j', 's', 'o', 'n']
}

/// A code fence.
pub open spec fn fence() -> Seq<char> {
    seq!['`', '`', '`']
}

pub open spec fn starts_with(s: Seq<char>, p: Seq<char>) -> bool {
    p.len() <= s.len() && s.subrange(0, p.len() as int) == p
}

pub open spec fn ends_with(s: Seq<char>, p: Seq<char>) -> bool {
    p.len() <= s.len() && s.subrange(s.len() - p.len(), s.len() as int) == p
}

/// The last index holding `c` among the first `n` characters.
pub open spec fn last_index(s: Seq<char>, c: char, n: int) -> Option<int>
    decreases n,
{
    if n <= 0 {
        None
    } else if s[n - 1] == c {
        Some(n - 1)
    } else {
        last_index(s, c, n - 1)
    }
}

/// The first index holding `c` among the first `n` characters.
pub open spec fn first_index(s: Seq<char>, c: char, n: int) -> Option<int>
    decreases n,
{
    if n <= 0 {
        None
    } else {
        match first_index(s, c, n - 1) {
            Some(i) => Some(i),
            None => if s[n - 1] == c {
                Some(n - 1)
            } else {
                None
            },
        }
    }
}

/// The model content without code fences and surrounding prose: trimmed, one
/// leading fence (tagged or not) and one trailing fence removed, trimmed again,
/// then cut from the first '[' to the last ']' when the ']' comes later.
pub open spec fn json_slice(content: Seq<char>) -> Seq<char> {
    let t0 = trim(content);
    let t1 = if starts_with(t0, fence_json()) {
        t0.subrange(7, t0.len() as int)
    } else if starts_with(t0, fence()) {
        t0.subrange(3, t0.len() as int)
    } else {
        t0
    };
    let t2 = if ends_with(t1, fence()) {
        t1.subrange(0, t1.len() - 3)
    } else {
        t1
    };
    let t3 = trim(t2);
    match (first_index(t3, '[', t3.len() as int), last_index(t3, ']', t3.len() as int)) {
        (Some(a), Some(b)) => if b > a {
            t3.subrange(a, b + 1)
        } else {
            t3
        },
        _ => t3,
    }
}

fn has_prefix(s: &Vec<char>, p: &Vec<char>) -> (r: bool)
    ensures
        r == starts_with(s@, p@),
{
    if p.len() > s.len() {
        return false;
    }
    let mut i: usize = 0;
    while i < p.len()
        invariant
            p.len() <= s.len(),
            i <= p.len(),
            forall|k: int| 0 <= k < i ==> s@[k] == p@[k],
        decreases p.len() - i,
    {
        if s[i] != p[i] {
            assert(s@.subrange(0, p@.len() as int)[i as int] != p@[i as int]);
            return false;
        }
        i += 1;
    }
    assert(s@.subrange(0, p@.len() as int) =~= p@);
    true
}

fn has_suffix(s: &Vec<char>, p: &Vec<char>) -> (r: bool)
    ensures
        r == ends_with(s@, p@),
{
    if p.len() > s.len() {
        return false;
    }
    let off = s.len() - p.len();
    let mut i: usize = 0;
    while i < p.len()
        invariant
            p.len() <= s.len(),
            off == s.len() - p.len(),
            i <= p.len(),
            forall|k: int| 0 <= k < i ==> s@[off + k] == p@[k],
        decreases p.len() - i,
    {
        if s[off + i] != p[i] {
            assert(s@.subrange(off as int, s@.len() as int)[i as int] != p@[i as int]);
            return false;
        }
        i += 1;
    }
    assert(s@.subrange(off as int, s@.len() as int) =~= p@);
    true
}

fn fence_chars(tagged: bool) -> (r: Vec<char>)
    ensures
        r@ == if tagged {
            fence_json()
        } else {
            fence()
        },
{
    let mut v: Vec<char> = Vec::new();
    v.push('`');
    v.push('`');
    v.push('`');
    if tagged {
        v.push('j');
        v.push('s');
        v.push('o');
        v.push('n');
    }
    assert(v@ =~= if tagged {
        fence_json()
    } else {
        fence()
    });
    v
}

fn find_first(s: &Vec<char>, c: char) -> (r: Option<usize>)
    ensures
        match r {
            Some(i) => first_index(s@, c, s@.len() as int) == Some(i as int),
            None => first_index(s@, c, s@.len() as int) is None,
        },
{
    let mut i: usize = 0;
    while i < s.len()
        invariant
            i <= s.len(),
            first_index(s@, c, i as int) is None,
        decreases s.len() - i,
    {
        if s[i] == c {
            proof {
                lemma_first_index_found(s@, c, (i + 1) as int, s@.len() as int);
            }
            return Some(i);
        }
        i += 1;
    }
    None
}

proof fn lemma_first_index_found(s: Seq<char>, c: char, m: int, n: int)
    requires
        0 < m <= n <= s.len(),
        first_index(s, c, m) is Some,
    ensures
        first_index(s, c, n) == first_index(s, c, m),
    decreases n - m,
{
    if n > m {
        lemma_first_index_found(s, c, m, n - 1);
    }
}

fn find_last(s: &Vec<char>, c: char) -> (r: Option<usize>)
    ensures
        match r {
            Some(i) => last_index(s@, c, s@.len() as int) == Some(i as int),
            None => last_index(s@, c, s@.len() as int) is None,
        },
{
    let mut n: usize = s.len();
    while n > 0
        invariant
            n <= s.len(),
            last_index(s@, c, s@.len() as int) == last_index(s@, c, n as int),
        decreases n,
    {
        if s[n - 1] == c {
            return Some(n - 1);
        }
        n -= 1;
    }
    None
}

/// Strips code fences and prose around the JSON array of the model content.
pub fn json_array_text(content: &str) -> (r: String)
    ensures
        r@ == json_slice(content@),
{
    let c = chars_of(content);
    let t0 = trim_chars(&c);
    let tagged = fence_chars(true);
    let plain = fence_chars(false);
    let t1 = if has_prefix(&t0, &tagged) {
        slice_chars(&t0, 7, t0.len())
    } else if has_prefix(&t0, &plain) {
        slice_chars(&t0, 3, t0.len())
    } else {
        t0
    };
    let t2 = if has_suffix(&t1, &plain) {
        slice_chars(&t1, 0, t1.len() - 3)
    } else {
        t1
    };
    let t3 = trim_chars(&t2);
    let open = find_first(&t3, '[');
    let close = find_last(&t3, ']');
    match (open, close) {
        (Some(a), Some(b)) => {
            if b > a {
                proof {
                    lemma_last_index_range(t3@, ']', t3@.len() as int);
                    assert(last_index(t3@, ']', t3@.len() as int) == Some(b as int));
                }
                assert(b < t3.len());
                let cut = slice_chars(&t3, a, b + 1);
                string_of(&cut)
            } else {
                string_of(&t3)
            }
        },
        _ => string_of(&t3),
    }
}

proof fn lemma_last_index_range(s: Seq<char>, c: char, n: int)
    requires
        0 <= n <= s.len(),
    ensures
        last_index(s, c, n) matches Some(i) ==> 0 <= i < n,
    decreases n,
{
    if n > 0 {
        lemma_last_index_range(s, c, n - 1);
    }
}

/// The number of whitespace-separated words among the first `n` characters
/// (`str::split_whitespace().count()`).
pub open spec fn words_in(s: Seq<char>, n: int) -> nat
    decreases n,
{
    if n <= 0 {
        0
    } else {
        words_in(s, n - 1) + if !whitespace(s[n - 1]) && (n == 1 || whitespace(s[n - 2])) {
            1nat
        } else {
            0nat
        }
    }
}

proof fn lemma_words_in_bound(s: Seq<char>, n: int)
    requires
        0 <= n,
    ensures
        words_in(s, n) <= n,
    decreases n,
{
    if n > 0 {
        lemma_words_in_bound(s, n - 1);
    }
}

fn count_words(s: &Vec<char>) -> (r: usize)
    ensures
        r == words_in(s@, s@.len() as int),
{
    let mut count: usize = 0;
    let mut i: usize = 0;
    let mut prev_ws = true;
    while i < s.len()
        invariant
            i <= s.len(),
            count == words_in(s@, i as int),
            prev_ws == (i == 0 || whitespace(s@[i - 1])),
        decreases s.len() - i,
    {
        proof {
            lemma_words_in_bound(s@, i as int);
        }
        let ws = is_whitespace(s[i]);
        if !ws && prev_ws {
            count += 1;
        }
        prev_ws = ws;
        i += 1;
    }
    count
}

/// The index of the first requested word with this id.
pub open spec fn word_pred(words: Seq<GenWord>, id: i64) -> spec_fn(int) -> bool {
    |k: int| words[k].word_id == id
}

/// What one item of model output yields: nothing unless its id names a requested
/// word, its sentence trimmed is non-empty, at most 160 characters and 4 to 20
/// words long, its sense (when given) is the requested one, and the word occurs in
/// it as a whole word; then the requested word's ids and the blanked sentence.
pub open spec fn accept_item(
    item: (Option<i64>, Option<i64>, Option<Seq<char>>),
    words: Seq<GenWord>,
) -> Option<(i64, Option<i64>, Seq<char>)> {
    match item.0 {
        None => None,
        Some(id) => match crate::scan::first_from(0, words.len() as int, word_pred(words, id)) {
            None => None,
            Some(k) => match item.2 {
                None => None,
                Some(raw) => {
                    let st = trim(raw);
                    let w = words[k];
                    if st.len() == 0 || st.len() > 160 || !(4 <= words_in(st, st.len() as int) <= 20) {
                        None
                    } else if item.1 is Some && w.sense_id != item.1 {
                        None
                    } else {
                        match cloze(st, w.word@) {
                            None => None,
                            Some(b) => Some((w.word_id, w.sense_id, b)),
                        }
                    }
                },
            },
        },
    }
}

/// The accepted examples of the first `n` items, in order.
pub open spec fn accepted(
    items: Seq<(Option<i64>, Option<i64>, Option<Seq<char>>)>,
    words: Seq<GenWord>,
    n: int,
) -> Seq<(i64, Option<i64>, Seq<char>)>
    decreases n,
{
    if n <= 0 {
        Seq::empty()
    } else {
        let prev = accepted(items, words, n - 1);
        match accept_item(items[n - 1], words) {
            Some(x) => prev.push(x),
            None => prev,
        }
    }
}

/// Every accepted example is for a requested word and carries that word's sense:
/// the model cannot add words or move a sentence to another sense.
pub proof fn lemma_accepted_are_requested(
    items: Seq<(Option<i64>, Option<i64>, Option<Seq<char>>)>,
    words: Seq<GenWord>,
    n: int,
)
    ensures
        forall|k: int|
            0 <= k < accepted(items, words, n).len() ==> exists|j: int|
                0 <= j < words.len() && words[j].word_id == (#[trigger] accepted(items, words, n)[k]).0
                    && words[j].sense_id == accepted(items, words, n)[k].1,
    decreases n,
{
    if n > 0 {
        lemma_accepted_are_requested(items, words, n - 1);
        let prev = accepted(items, words, n - 1);
        match accept_item(items[n - 1], words) {
            Some(x) => {
                let id = items[n - 1].0.unwrap();
                crate::scan::lemma_first_from(0, words.len() as int, word_pred(words, id));
                let j = crate::scan::first_from(0, words.len() as int, word_pred(words, id)).unwrap();
                assert forall|k: int| 0 <= k < accepted(items, words, n).len() implies exists|j: int|
                    0 <= j < words.len() && words[j].word_id == (#[trigger] accepted(items, words, n)[k]).0
                        && words[j].sense_id == accepted(items, words, n)[k].1 by {
                    if k < prev.len() {
                        assert(accepted(items, words, n)[k] == prev[k]);
                    } else {
                        assert(accepted(items, words, n)[k] == x);
                        assert(words[j].word_id == x.0);
                    }
                }
            },
            None => {},
        }
    }
}

/// Every accepted example comes from a model item that names its word and that
/// gives no sense or exactly the requested sense: a sentence written for another
/// sense of the word is never accepted.
pub proof fn lemma_accepted_match_their_items(
    items: Seq<(Option<i64>, Option<i64>, Option<Seq<char>>)>,
    words: Seq<GenWord>,
    n: int,
)
    requires
        n <= items.len(),
    ensures
        forall|k: int|
            0 <= k < accepted(items, words, n).len() ==> exists|i: int|
                0 <= i < n && items[i].0 == Some((#[trigger] accepted(items, words, n)[k]).0) && (items[i].1 is None
                    || items[i].1 == accepted(items, words, n)[k].1),
    decreases n,
{
    if n > 0 {
        lemma_accepted_match_their_items(items, words, n - 1);
        let prev = accepted(items, words, n - 1);
        let cur = accepted(items, words, n);
        assert forall|k: int| 0 <= k < cur.len() implies exists|i: int|
            0 <= i < n && items[i].0 == Some((#[trigger] cur[k]).0) && (items[i].1 is None || items[i].1
                == cur[k].1) by {
            if k < prev.len() {
                assert(cur[k] == prev[k]);
                let i = choose|i: int|
                    0 <= i < n - 1 && items[i].0 == Some((#[trigger] prev[k]).0) && (items[i].1 is None
                        || items[i].1 == prev[k].1);
                assert(0 <= i < n);
            } else {
                let id = items[n - 1].0.unwrap();
                crate::scan::lemma_first_from(0, words.len() as int, word_pred(words, id));
                assert(items[n - 1].0 == Some(cur[k].0));
            }
        }
    }
}

fn find_word(words: &Vec<GenWord>, id: i64) -> (r: Option<usize>)
    ensures
        match r {
            Some(k) => crate::scan::first_from(0, words@.len() as int, word_pred(words@, id)) == Some(
                k as int,
            ) && k < words@.len(),
            None => crate::scan::first_from(0, words@.len() as int, word_pred(words@, id)) is None,
        },
{
    let n = words.len();
    let mut k: usize = 0;
    while k < n
        invariant
            k <= n == words@.len(),
            crate::scan::first_from(0, n as int, word_pred(words@, id)) == crate::scan::first_from(
                k as int,
                n as int,
                word_pred(words@, id),
            ),
        decreases n - k,
    {
        if words[k].word_id == id {
            return Some(k);
        }
        k += 1;
    }
    None
}

fn accept_one(item: &JsonItem, words: &Vec<GenWord>) -> (r: Option<AiExample>)
    ensures
        match r {
            Some(e) => accept_item(item@, words@) == Some(e@),
            None => accept_item(item@, words@) is None,
        },
{
    let id = match item.word_id {
        Some(id) => id,
        None => return None,
    };
    let k = match find_word(words, id) {
        Some(k) => k,
        None => return None,
    };
    let raw = match &item.sentence {
        Some(s) => s,
        None => return None,
    };
    let rc = chars_of(raw.as_str());
    let st = trim_chars(&rc);
    if st.len() == 0 || st.len() > 160 {
        return None;
    }
    let n_words = count_words(&st);
    if n_words < 4 || n_words > 20 {
        return None;
    }
    let w = &words[k];
    match item.sense_id {
        Some(sid) => {
            let same = match w.sense_id {
                Some(x) => x == sid,
                None => false,
            };
            if !same {
                return None;
            }
        },
        None => {},
    }
    let sentence = string_of(&st);
    match blank_word(sentence.as_str(), w.word.as_str()) {
        None => None,
        Some(b) => Some(AiExample { word_id: w.word_id, sense_id: w.sense_id, sentence: b }),
    }
}

/// The items of the JSON array in the model content, fences and prose removed
/// (none when no JSON array reads).
pub fn parse_json_items(content: &str) -> (r: Vec<JsonItem>)
    ensures
        r@.map_values(|x: JsonItem| x@) == model_items(json_slice(content@)),
{
    let slice = json_array_text(content);
    parse_items(slice.as_str(), "word_id", "sense_id", "sentence")
}

/// Validates model output and blanks the target word in every accepted sentence.
/// Items are accepted by `accept_item`; the others are dropped.
pub fn validate_and_blank(content: &str, words: &Vec<GenWord>) -> (r: Vec<AiExample>)
    ensures
        r@.map_values(|e: AiExample| e@) == accepted(
            model_items(json_slice(content@)),
            words@,
            model_items(json_slice(content@)).len() as int,
        ),
{
    let items = parse_json_items(content);
    let ghost iv = items@.map_values(|x: JsonItem| x@);
    let mut out: Vec<AiExample> = Vec::new();
    let mut i: usize = 0;
    while i < items.len()
        invariant
            i <= items@.len(),
            iv == items@.map_values(|x: JsonItem| x@),
            iv == model_items(json_slice(content@)),
            out@.map_values(|e: AiExample| e@) == accepted(iv, words@, i as int),
        decreases items.len() - i,
    {
        let ghost before = out@;
        match accept_one(&items[i], words) {
            Some(e) => {
                out.push(e);
                assert(out@.map_values(|e: AiExample| e@) =~= before.map_values(|e: AiExample| e@).push(e@));
            },
            None => {},
        }
        i += 1;
    }
    out
}

// ── configuration ─────────────────────────────────────────────────

/// The cache key changes with the prompt version.
pub const PROMPT_VERSION: u32 = 2;

/// Request timeout in seconds (no automatic retry).
pub const REQUEST_TIMEOUT_SECS: u64 = 15;

/// The default service address.
pub open spec fn default_base_url() -> Seq<char> {
    "https://api.deepseek.com/v1"@
}

/// The default model.
pub open spec fn default_model() -> Seq<char> {
    "deepseek-chat"@
}

/// A stored setting that is present and not blank.
pub open spec fn setting_or(v: Option<Seq<char>>, default: Seq<char>) -> Seq<char> {
    match v {
        Some(x) => if trim(x).len() > 0 {
            x
        } else {
            default
        },
        None => default,
    }
}

fn setting_or_default(v: Option<String>, default: &str) -> (r: String)
    ensures
        r@ == setting_or(opt_view(v), default@),
{
    match v {
        Some(x) => {
            let c = chars_of(x.as_str());
            if trim_chars(&c).len() > 0 {
                x
            } else {
                default.to_string()
            }
        },
        None => default.to_string(),
    }
}

pub open spec fn opt_view(s: Option<String>) -> Option<Seq<char>> {
    match s {
        Some(x) => Some(x@),
        None => None,
    }
}

/// The configuration from the stored settings: generation is on only when
/// `ai_enabled` is "1"; a missing or blank address or model falls back to the defaults.
pub fn config_from_settings(enabled: Option<String>, base_url: Option<String>, model: Option<String>) -> (r: AiConfig)
    ensures
        r.enabled == (opt_view(enabled) == Some("1"@)),
        r.base_url@ == setting_or(opt_view(base_url), default_base_url()),
        r.model@ == setting_or(opt_view(model), default_model()),
{
    let on = match &enabled {
        Some(e) => str_equals(e.as_str(), "1"),
        None => false,
    };
    AiConfig {
        enabled: on,
        base_url: setting_or_default(base_url, "https://api.deepseek.com/v1"),
        model: setting_or_default(model, "deepseek-chat"),
    }
}

/// The rows that saving the configuration writes: the flag as "1" or "0", the
/// address and the model trimmed.
pub fn config_rows(enabled: bool, base_url: &str, model: &str) -> (r: Vec<(String, String)>)
    ensures
        r@.len() == 3,
        r@[0].0@ == "ai_enabled"@ && r@[0].1@ == (if enabled {
            "1"@
        } else {
            "0"@
        }),
        r@[1].0@ == "ai_base_url"@ && r@[1].1@ == trim(base_url@),
        r@[2].0@ == "ai_model"@ && r@[2].1@ == trim(model@),
{
    let mut rows: Vec<(String, String)> = Vec::new();
    let flag = if enabled {
        "1".to_string()
    } else {
        "0".to_string()
    };
    rows.push(("ai_enabled".to_string(), flag));
    let b = chars_of(base_url);
    rows.push(("ai_base_url".to_string(), string_of(&trim_chars(&b))));
    let m = chars_of(model);
    rows.push(("ai_model".to_string(), string_of(&trim_chars(&m))));
    rows
}

/// The unit separator between the parts of a cache key.
pub open spec fn key_sep() -> Seq<char> {
    seq!['\u{1f}']
}

/// The cache key: prompt version, normalised word, trimmed English and Chinese
/// definitions, the service address without trailing slashes, and the trimmed model.
pub open spec fn cache_key_of(w: GenWord, cfg: AiConfig) -> Seq<char> {
    seq!['v'] + decimal(PROMPT_VERSION as int) + key_sep() + normalized(w.word@) + key_sep() + trim(
        w.english@,
    ) + key_sep() + trim(
        match w.chinese {
            Some(z) => z@,
            None => Seq::empty(),
        },
    ) + key_sep() + strip_end(cfg.base_url@, StripSet::Slash) + key_sep() + trim(cfg.model@)
}

proof fn lemma_equal_suffix(x1: Seq<char>, x2: Seq<char>, m: Seq<char>)
    requires
        x1 + m == x2 + m,
    ensures
        x1 == x2,
{
    assert((x1 + m).len() == x1.len() + m.len());
    assert((x2 + m).len() == x2.len() + m.len());
    assert(x1.len() == x2.len());
    assert(x1 =~= (x1 + m).subrange(0, x1.len() as int));
    assert(x2 =~= (x2 + m).subrange(0, x2.len() as int));
}

proof fn lemma_equal_prefix(x: Seq<char>, m1: Seq<char>, m2: Seq<char>)
    requires
        x + m1 == x + m2,
    ensures
        m1 == m2,
{
    assert(m1 =~= (x + m1).subrange(x.len() as int, (x + m1).len() as int));
    assert(m2 =~= (x + m2).subrange(x.len() as int, (x + m2).len() as int));
}

/// The text holds no unit separator.
pub open spec fn sep_free(s: Seq<char>) -> bool {
    forall|i: int| 0 <= i < s.len() ==> s[i] != '\u{1f}'
}

/// The parts of a cache key after the version: the normalised word, the trimmed
/// English and Chinese definitions, the address without trailing slashes, the
/// trimmed model.
pub open spec fn key_parts(w: GenWord, cfg: AiConfig) -> (Seq<char>, Seq<char>, Seq<char>, Seq<char>, Seq<char>) {
    (
        normalized(w.word@),
        trim(w.english@),
        trim(
            match w.chinese {
                Some(z) => z@,
                None => Seq::empty(),
            },
        ),
        strip_end(cfg.base_url@, StripSet::Slash),
        trim(cfg.model@),
    )
}

/// No part of a cache key holds the unit separator.
pub open spec fn parts_sep_free(p: (Seq<char>, Seq<char>, Seq<char>, Seq<char>, Seq<char>)) -> bool {
    sep_free(p.0) && sep_free(p.1) && sep_free(p.2) && sep_free(p.3) && sep_free(p.4)
}

proof fn lemma_split_at_sep(a1: Seq<char>, r1: Seq<char>, a2: Seq<char>, r2: Seq<char>)
    requires
        sep_free(a1),
        sep_free(a2),
        a1 + key_sep() + r1 == a2 + key_sep() + r2,
    ensures
        a1 == a2,
        r1 == r2,
{
    let x = a1 + key_sep() + r1;
    let y = a2 + key_sep() + r2;
    if a1.len() < a2.len() {
        assert(x[a1.len() as int] == '\u{1f}');
        assert(y[a1.len() as int] == a2[a1.len() as int]);
    }
    if a2.len() < a1.len() {
        assert(y[a2.len() as int] == '\u{1f}');
        assert(x[a2.len() as int] == a1[a2.len() as int]);
    }
    assert(a1 =~= x.subrange(0, a1.len() as int));
    assert(a2 =~= y.subrange(0, a2.len() as int));
    assert(r1 =~= x.subrange((a1.len() + 1) as int, x.len() as int));
    assert(r2 =~= y.subrange((a2.len() + 1) as int, y.len() as int));
}

/// A cache key identifies what it was made of: when no part holds the separator
/// U+001F, two words and configurations with the same key have the same
/// normalised word, trimmed English and Chinese definitions, address without
/// trailing slashes and trimmed model. So a change to any of these gives another
/// key, and an unchanged word and configuration meet their cached example again.
pub proof fn lemma_cache_key_identifies(w1: GenWord, c1: AiConfig, w2: GenWord, c2: AiConfig)
    requires
        parts_sep_free(key_parts(w1, c1)),
        parts_sep_free(key_parts(w2, c2)),
    ensures
        cache_key_of(w1, c1) == cache_key_of(w2, c2) <==> key_parts(w1, c1) == key_parts(w2, c2),
{
    let p = seq!['v'] + decimal(PROMPT_VERSION as int) + key_sep();
    let (n1, e1, z1, u1, m1) = key_parts(w1, c1);
    let (n2, e2, z2, u2, m2) = key_parts(w2, c2);
    let t1 = n1 + key_sep() + (e1 + key_sep() + (z1 + key_sep() + (u1 + key_sep() + m1)));
    let t2 = n2 + key_sep() + (e2 + key_sep() + (z2 + key_sep() + (u2 + key_sep() + m2)));
    assert(cache_key_of(w1, c1) =~= p + t1);
    assert(cache_key_of(w2, c2) =~= p + t2);
    if cache_key_of(w1, c1) == cache_key_of(w2, c2) {
        lemma_equal_prefix(p, t1, t2);
        lemma_split_at_sep(n1, e1 + key_sep() + (z1 + key_sep() + (u1 + key_sep() + m1)), n2, e2 + key_sep() + (z2
            + key_sep() + (u2 + key_sep() + m2)));
        lemma_split_at_sep(e1, z1 + key_sep() + (u1 + key_sep() + m1), e2, z2 + key_sep() + (u2 + key_sep() + m2));
        lemma_split_at_sep(z1, u1 + key_sep() + m1, z2, u2 + key_sep() + m2);
        lemma_split_at_sep(u1, m1, u2, m2);
    }
}

/// The cache key follows the service address and the model: trailing slashes on
/// the address and white space around the model do not matter, but two
/// configurations that differ in one of them (the other being the same) never
/// share a key.
pub proof fn lemma_cache_key_sensitivity(w: GenWord, a: AiConfig, b: AiConfig)
    ensures
        strip_end(a.base_url@, StripSet::Slash) == strip_end(b.base_url@, StripSet::Slash) && trim(a.model@)
            == trim(b.model@) ==> cache_key_of(w, a) == cache_key_of(w, b),
        strip_end(a.base_url@, StripSet::Slash) == strip_end(b.base_url@, StripSet::Slash) && trim(a.model@)
            != trim(b.model@) ==> cache_key_of(w, a) != cache_key_of(w, b),
        strip_end(a.base_url@, StripSet::Slash) != strip_end(b.base_url@, StripSet::Slash) && trim(a.model@)
            == trim(b.model@) ==> cache_key_of(w, a) != cache_key_of(w, b),
{
    let p = seq!['v'] + decimal(PROMPT_VERSION as int) + key_sep() + normalized(w.word@) + key_sep() + trim(
        w.english@,
    ) + key_sep() + trim(
        match w.chinese {
            Some(z) => z@,
            None => Seq::empty(),
        },
    ) + key_sep();
    let ua = strip_end(a.base_url@, StripSet::Slash);
    let ub = strip_end(b.base_url@, StripSet::Slash);
    let ma = trim(a.model@);
    let mb = trim(b.model@);
    assert(cache_key_of(w, a) =~= (p + ua + key_sep()) + ma);
    assert(cache_key_of(w, b) =~= (p + ub + key_sep()) + mb);
    if ua == ub && ma != mb && cache_key_of(w, a) == cache_key_of(w, b) {
        lemma_equal_prefix(p + ua + key_sep(), ma, mb);
    }
    if ua != ub && ma == mb && cache_key_of(w, a) == cache_key_of(w, b) {
        lemma_equal_suffix(p + ua + key_sep(), p + ub + key_sep(), ma);
        assert((p + ua + key_sep()).len() == (p + ub + key_sep()).len());
        assert(ua =~= (p + ua + key_sep()).subrange(p.len() as int, (p.len() + ua.len()) as int));
        assert(ub =~= (p + ub + key_sep()).subrange(p.len() as int, (p.len() + ub.len()) as int));
    }
}

/// Trailing slashes never change the stripped address.
pub proof fn lemma_trailing_slash_ignored(u: Seq<char>)
    ensures
        strip_end(u.push('/'), StripSet::Slash) == strip_end(u, StripSet::Slash),
{
    assert(u.push('/').drop_last() =~= u);
}

fn push_sep(v: &mut Vec<char>)
    ensures
        final(v)@ == old(v)@ + key_sep(),
{
    v.push('\u{1f}');
    assert(v@ =~= old(v)@ + key_sep());
}

/// The cache key of a word under a configuration (see `cache_key_of`).
pub fn cache_key(w: &GenWord, cfg: &AiConfig) -> (r: String)
    ensures
        r@ == cache_key_of(*w, *cfg),
{
    let mut k: Vec<char> = Vec::new();
    k.push('v');
    push_all(&mut k, &chars_of(u32_text(PROMPT_VERSION).as_str()));
    push_sep(&mut k);
    push_all(&mut k, &chars_of(normalize_word(w.word.as_str()).as_str()));
    push_sep(&mut k);
    push_all(&mut k, &trim_chars(&chars_of(w.english.as_str())));
    push_sep(&mut k);
    let zh = match &w.chinese {
        Some(z) => chars_of(z.as_str()),
        None => Vec::new(),
    };
    push_all(&mut k, &trim_chars(&zh));
    push_sep(&mut k);
    push_all(&mut k, &strip_end_chars(&chars_of(cfg.base_url.as_str()), StripSet::Slash));
    push_sep(&mut k);
    push_all(&mut k, &trim_chars(&chars_of(cfg.model.as_str())));
    assert(k@ =~= cache_key_of(*w, *cfg));
    string_of(&k)
}

/// The chat completions endpoint: the trimmed address without trailing slashes,
/// then "/chat/completions"; a blank address is not configured.
pub open spec fn chat_url_of(cfg: AiConfig) -> Option<Seq<char>> {
    let base = strip_end(trim(cfg.base_url@), StripSet::Slash);
    if base.len() == 0 {
        None
    } else {
        Some(base + "/chat/completions"@)
    }
}

/// The request address of the configuration.
pub fn chat_url(cfg: &AiConfig) -> (r: Result<String, AppError>)
    ensures
        match chat_url_of(*cfg) {
            Some(u) => r matches Ok(s) && s@ == u,
            None => r matches Err(AppError::Network(m)) && m@ == "AI service address is not configured"@,
        },
{
    let base = strip_end_chars(&trim_chars(&chars_of(cfg.base_url.as_str())), StripSet::Slash);
    if base.len() == 0 {
        return Err(AppError::Network("AI service address is not configured".to_string()));
    }
    let mut url = string_of(&base);
    url.append("/chat/completions");
    Ok(url)
}

/// The system instruction of every generation request.
pub const SYSTEM_PROMPT: &'static str = "You write one short English example sentence per vocabulary word for a learner. Use a concrete, everyday situation and clear B1-level language. Each sentence must be natural and self-contained, 6-14 words, and use the target word exactly in its given base form as a whole word. Match the provided sense, not another meaning. Avoid quotations, definitions disguised as sentences, rare names, and sensitive topics. Reply with a single JSON array, one object per requested word in the same order, each object exactly {\"word_id\": <number>, \"sense_id\": <number or null>, \"sentence\": \"<sentence>\"}. No notes, no translations, no extra text.";

/// The system instruction as an owned string.
pub fn system_prompt() -> (r: String)
    ensures
        r@ == SYSTEM_PROMPT@,
{
    SYSTEM_PROMPT.to_string()
}

/// One request line: ids, word and trimmed definitions (no personal data).
pub open spec fn prompt_line(w: GenWord) -> Seq<char> {
    "- word_id: "@ + decimal(w.word_id as int) + " | sense_id: "@ + match w.sense_id {
        Some(s) => decimal(s as int),
        None => "null"@,
    } + " | word: "@ + w.word@ + " | english: "@ + trim(w.english@) + " | chinese: "@ + trim(
        match w.chinese {
            Some(z) => z@,
            None => Seq::empty(),
        },
    )
}

/// "Words:" and one line per word, joined by newlines.
pub open spec fn user_prompt_of(words: Seq<GenWord>, n: int) -> Seq<char>
    decreases n,
{
    if n <= 0 {
        "Words:"@
    } else {
        user_prompt_of(words, n - 1) + seq!['\n'] + prompt_line(words[n - 1])
    }
}

fn push_str(v: &mut Vec<char>, s: &str)
    ensures
        final(v)@ == old(v)@ + s@,
{
    push_all(v, &chars_of(s));
}

/// The user message of a generation request.
pub fn user_prompt(words: &Vec<GenWord>) -> (r: String)
    ensures
        r@ == user_prompt_of(words@, words@.len() as int),
{
    let mut out: Vec<char> = Vec::new();
    push_str(&mut out, "Words:");
    let mut i: usize = 0;
    while i < words.len()
        invariant
            i <= words.len(),
            out@ == user_prompt_of(words@, i as int),
        decreases words.len() - i,
    {
        let w = &words[i];
        let ghost before = out@;
        out.push('\n');
        push_str(&mut out, "- word_id: ");
        push_str(&mut out, i64_text(w.word_id).as_str());
        push_str(&mut out, " | sense_id: ");
        match w.sense_id {
            Some(s) => push_str(&mut out, i64_text(s).as_str()),
            None => push_str(&mut out, "null"),
        }
        push_str(&mut out, " | word: ");
        push_str(&mut out, w.word.as_str());
        push_str(&mut out, " | english: ");
        push_all(&mut out, &trim_chars(&chars_of(w.english.as_str())));
        push_str(&mut out, " | chinese: ");
        let zh = match &w.chinese {
            Some(z) => chars_of(z.as_str()),
            None => Vec::new(),
        };
        push_all(&mut out, &trim_chars(&zh));
        assert(out@ =~= before + seq!['\n'] + prompt_line(*w));
        i += 1;
    }
    string_of(&out)
}

// ── responses ─────────────────────────────────────────────────────

/// What `serde_json` reads from a text at a JSON pointer: the text of the parse
/// error when the text is not JSON; otherwise the string at the pointer, when a
/// string is there.
pub uninterp spec fn json_string_at(text: Seq<char>, pointer: Seq<char>) -> Result<Option<Seq<char>>, Seq<char>>;

/// Parses the text with `serde_json::from_str::<Value>` and takes the string at the
/// pointer (`Value::pointer`, `as_str`); the parse error is kept as its text. The
/// outcome is named by `json_string_at`.
#[verifier::external_body]
fn string_at_pointer(text: &str, pointer: &str) -> (r: Result<Option<String>, String>)
    ensures
        match json_string_at(text@, pointer@) {
            Ok(Some(c)) => r matches Ok(Some(x)) && x@ == c,
            Ok(None) => r matches Ok(None),
            Err(m) => r matches Err(x) && x@ == m,
        },
{
    match serde_json::from_str::<serde_json::Value>(text) {
        Err(e) => Err(e.to_string()),
        Ok(value) => Ok(value.pointer(pointer).and_then(|v| v.as_str()).map(|c| c.to_string())),
    }
}

/// The reply text of a chat completion body: the string at
/// `/choices/0/message/content`, or the error that the body is not JSON or has no
/// such string.
pub open spec fn chat_content_of(body: Seq<char>) -> Result<Seq<char>, Seq<char>> {
    match json_string_at(body, "/choices/0/message/content"@) {
        Err(m) => Err("AI response is not JSON: "@ + m),
        Ok(None) => Err("AI response missing choices[0].message.content"@),
        Ok(Some(c)) => Ok(c),
    }
}

/// The reply text of a chat completion body (see `chat_content_of`).
pub fn chat_content(body: &str) -> (r: Result<String, String>)
    ensures
        match chat_content_of(body@) {
            Ok(c) => r matches Ok(s) && s@ == c,
            Err(m) => r matches Err(s) && s@ == m,
        },
{
    match string_at_pointer(body, "/choices/0/message/content") {
        Err(m) => {
            let mut e = "AI response is not JSON: ".to_string();
            e.append(m.as_str());
            Err(e)
        },
        Ok(None) => Err("AI response missing choices[0].message.content".to_string()),
        Ok(Some(c)) => Ok(c),
    }
}

/// The outcome of a generation request once its answer is in: an unsuccessful
/// status or an unreadable body is an error; otherwise the validated, blanked examples.
pub fn batch_result(words: &Vec<GenWord>, success: bool, status: &str, body: &str) -> (r: Result<Vec<AiExample>, AppError>)
    ensures
        !success ==> (r matches Err(AppError::Network(m)) && m@ == "AI service returned "@ + status@),
        success ==> match chat_content_of(body@) {
            Ok(c) => r matches Ok(v) && v@.map_values(|e: AiExample| e@) == accepted(
                model_items(json_slice(c)),
                words@,
                model_items(json_slice(c)).len() as int,
            ),
            Err(m) => r matches Err(AppError::Network(x)) && x@ == m,
        },
{
    if !success {
        let mut m = "AI service returned ".to_string();
        m.append(status);
        return Err(AppError::Network(m));
    }
    match chat_content(body) {
        Err(m) => Err(AppError::Network(m)),
        Ok(content) => Ok(validate_and_blank(content.as_str(), words)),
    }
}

/// The first line of a text (`str::lines().next()`): up to the first line feed,
/// without a carriage return before it.
pub open spec fn first_line(s: Seq<char>) -> Seq<char> {
    let end = match crate::scan::first_from(0, s.len() as int, |k: int| s[k] == '\n') {
        Some(k) => k,
        None => s.len() as int,
    };
    let line = s.subrange(0, end);
    if line.len() > 0 && line.last() == '\r' {
        line.drop_last()
    } else {
        line
    }
}

/// The error of a failed connection test: the status, then ": " and at most the
/// first 200 characters of the first line of the body when that is not empty.
pub open spec fn connection_failure_of(status: Seq<char>, body: Seq<char>) -> Seq<char> {
    let line = first_line(body);
    let detail = if line.len() <= 200 {
        line
    } else {
        line.subrange(0, 200)
    };
    if detail.len() == 0 {
        "AI service returned "@ + status
    } else {
        "AI service returned "@ + status + ": "@ + detail
    }
}

/// The message of a failed connection test (see `connection_failure_of`).
pub fn connection_failure(status: &str, body: &str) -> (r: AppError)
    ensures
        r matches AppError::Network(m) && m@ == connection_failure_of(status@, body@),
{
    let b = chars_of(body);
    let mut end: usize = 0;
    while end < b.len() && b[end] != '\n'
        invariant
            end <= b.len(),
            crate::scan::first_from(0, b@.len() as int, |k: int| b@[k] == '\n') == crate::scan::first_from(
                end as int,
                b@.len() as int,
                |k: int| b@[k] == '\n',
            ),
        decreases b.len() - end,
    {
        end += 1;
    }
    let mut line = slice_chars(&b, 0, end);
    if line.len() > 0 && line[line.len() - 1] == '\r' {
        line.pop();
    }
    let detail = if line.len() <= 200 {
        line
    } else {
        slice_chars(&line, 0, 200)
    };
    let mut m: Vec<char> = Vec::new();
    push_str(&mut m, "AI service returned ");
    push_str(&mut m, status);
    if detail.len() > 0 {
        push_str(&mut m, ": ");
        push_all(&mut m, &detail);
    }
    AppError::Network(string_of(&m))
}

/// The JSON string literal that `serde_json::to_string` writes for a text: the
/// text in double quotes, with quotes, backslashes and control characters escaped.
pub uninterp spec fn json_quoted(s: Seq<char>) -> Seq<char>;

/// `serde_json::to_string` of a string (it cannot fail for a string); the literal is
/// named by `json_quoted`.
#[verifier::external_body]
fn quote_json(s: &str) -> (r: String)
    ensures
        r@ == json_quoted(s@),
{
    serde_json::to_string(s).unwrap_or_default()
}

/// The body of a connection test, as `serde_json` writes the object (keys in sorted
/// order): at most 8 tokens in the answer, one user message asking for "OK", the model.
pub open spec fn probe_body_of(model: Seq<char>) -> Seq<char> {
    "{\"max_tokens\":8,\"messages\":[{\"content\":\"Reply with the single word: OK\",\"role\":\"user\"}],\"model\":"@
        + json_quoted(model) + "}"@
}

fn probe_body(model: &str) -> (r: String)
    ensures
        r@ == probe_body_of(model@),
{
    let mut b = "{\"max_tokens\":8,\"messages\":[{\"content\":\"Reply with the single word: OK\",\"role\":\"user\"}],\"model\":".to_string();
    b.append(quote_json(model).as_str());
    b.append("}");
    b
}

/// A connection test needs an address and a model before any request is made;
/// the request then goes to the endpoint with the trimmed model.
pub fn connection_target(cfg: &AiConfig) -> (r: Result<BatchRequest, AppError>)
    ensures
        chat_url_of(*cfg) is None ==> (r matches Err(AppError::Network(m)) && m@ == "AI service address is not configured"@),
        chat_url_of(*cfg) matches Some(u) ==> (if trim(cfg.model@).len() == 0 {
            r matches Err(AppError::Network(m)) && m@ == "AI model is not configured"@
        } else {
            r matches Ok(b) && b.url@ == u && b.body@ == probe_body_of(trim(cfg.model@))
        }),
{
    let url = chat_url(cfg)?;
    let model = trim_chars(&chars_of(cfg.model.as_str()));
    if model.len() == 0 {
        return Err(AppError::Network("AI model is not configured".to_string()));
    }
    let body = probe_body(string_of(&model).as_str());
    Ok(BatchRequest { url, body })
}

// ── word assembly and the generation flow ─────────────────────────

/// A sense row: id, English definition, Chinese definition.
pub type SenseRow = (i64, String, Option<String>);

pub open spec fn english_nonblank_pred(rows: Seq<SenseRow>) -> spec_fn(int) -> bool {
    |k: int| trim(rows[k].1@).len() > 0
}

/// Without a requested sense, the first sense with a non-blank English definition,
/// else the first sense.
pub open spec fn default_sense(rows: Seq<SenseRow>) -> Option<int> {
    match crate::scan::first_from(0, rows.len() as int, english_nonblank_pred(rows)) {
        Some(k) => Some(k),
        None => if rows.len() > 0 {
            Some(0)
        } else {
            None
        },
    }
}

/// The index of the sense to generate for (see `default_sense`).
pub fn choose_sense(rows: &Vec<SenseRow>) -> (r: Option<usize>)
    ensures
        match r {
            Some(k) => default_sense(rows@) == Some(k as int) && k < rows@.len(),
            None => default_sense(rows@) is None,
        },
{
    let n = rows.len();
    let mut k: usize = 0;
    while k < n
        invariant
            k <= n == rows@.len(),
            crate::scan::first_from(0, n as int, english_nonblank_pred(rows@)) == crate::scan::first_from(
                k as int,
                n as int,
                english_nonblank_pred(rows@),
            ),
        decreases n - k,
    {
        if trim_chars(&chars_of(rows[k].1.as_str())).len() > 0 {
            return Some(k);
        }
        k += 1;
    }
    if n > 0 {
        Some(0)
    } else {
        None
    }
}

/// The word to generate for, from its head word and chosen sense row; a blank
/// Chinese definition counts as none.
pub fn gen_word(word_id: i64, word: String, sense: SenseRow) -> (r: GenWord)
    ensures
        r.word_id == word_id,
        r.sense_id == Some(sense.0),
        r.word == word,
        r.english == sense.1,
        opt_view(r.chinese) == match sense.2 {
            Some(z) => if trim(z@).len() > 0 {
                Some(z@)
            } else {
                None
            },
            None => None,
        },
{
    let (sid, english, chinese) = sense;
    let chinese = match chinese {
        Some(z) => {
            if trim_chars(&chars_of(z.as_str())).len() > 0 {
                Some(z)
            } else {
                None
            }
        },
        None => None,
    };
    GenWord { word_id, sense_id: Some(sid), word, english, chinese }
}

/// A copy of a word to generate for.
pub fn copy_gen_word(w: &GenWord) -> (r: GenWord)
    ensures
        r == *w,
{
    let chinese = copy_opt_string(&w.chinese);
    GenWord {
        word_id: w.word_id,
        sense_id: w.sense_id,
        word: w.word.clone(),
        english: w.english.clone(),
        chinese,
    }
}

/// Some cached example is for this word.
pub open spec fn is_cached(cached: Seq<AiExample>, word_id: i64) -> bool {
    exists|k: int| 0 <= k < cached.len() && #[trigger] cached[k].word_id == word_id
}

/// The words without a cached example, in order, for the first `n` words.
pub open spec fn missing_of(words: Seq<GenWord>, cached: Seq<AiExample>, n: int) -> Seq<GenWord>
    decreases n,
{
    if n <= 0 {
        Seq::empty()
    } else {
        let prev = missing_of(words, cached, n - 1);
        if is_cached(cached, words[n - 1].word_id) {
            prev
        } else {
            prev.push(words[n - 1])
        }
    }
}

/// The words still to generate: those without a cached example.
pub fn missing_words(words: &Vec<GenWord>, cached: &Vec<AiExample>) -> (r: Vec<GenWord>)
    ensures
        r@ == missing_of(words@, cached@, words@.len() as int),
{
    let mut out: Vec<GenWord> = Vec::new();
    let mut i: usize = 0;
    while i < words.len()
        invariant
            i <= words.len(),
            out@ == missing_of(words@, cached@, i as int),
        decreases words.len() - i,
    {
        let id = words[i].word_id;
        let mut found = false;
        let mut k: usize = 0;
        while k < cached.len()
            invariant
                k <= cached.len(),
                found == exists|j: int| 0 <= j < k && #[trigger] cached@[j].word_id == id,
            decreases cached.len() - k,
        {
            if cached[k].word_id == id {
                found = true;
            }
            k += 1;
        }
        if !found {
            out.push(copy_gen_word(&words[i]));
        }
        i += 1;
    }
    out
}

/// What to do once the key store answered, given whether cached examples exist.
#[derive(Clone, Debug, PartialEq, Eq)]
pub enum KeyDecision {
    /// Generate with this key.
    Generate(String),
    /// Return the cached examples alone.
    UseCached,
    /// Fail with this error.
    Fail(AppError),
}

/// With a key, generate; without one, or when the store fails, fall back to the
/// cached examples when there are any, else fail (no key: "No API key stored for AI";
/// a store failure: its own error).
pub fn key_decision(key: Result<Option<String>, AppError>, have_cached: bool) -> (r: KeyDecision)
    ensures
        match key {
            Ok(Some(k)) => r == KeyDecision::Generate(k),
            Ok(None) => if have_cached {
                r == KeyDecision::UseCached
            } else {
                r matches KeyDecision::Fail(AppError::Network(m)) && m@ == "No API key stored for AI"@
            },
            Err(e) => if have_cached {
                r == KeyDecision::UseCached
            } else {
                r == KeyDecision::Fail(e)
            },
        },
{
    match key {
        Ok(Some(k)) => KeyDecision::Generate(k),
        Ok(None) => {
            if have_cached {
                KeyDecision::UseCached
            } else {
                KeyDecision::Fail(AppError::Network("No API key stored for AI".to_string()))
            }
        },
        Err(e) => {
            if have_cached {
                KeyDecision::UseCached
            } else {
                KeyDecision::Fail(e)
            }
        },
    }
}

/// The examples returned after generation: a failure falls back to the cached
/// examples when there are any (else it is the error); a success gives the cached
/// examples followed by the generated ones.
pub fn after_generation(cached: Vec<AiExample>, generated: Result<Vec<AiExample>, AppError>) -> (r: Result<Vec<AiExample>, AppError>)
    ensures
        generated matches Ok(g) ==> r matches Ok(v) && v@ == cached@ + g@,
        generated matches Err(e) ==> if cached@.len() > 0 {
            r matches Ok(v) && v@ == cached@
        } else {
            r == Err::<Vec<AiExample>, AppError>(e)
        },
{
    match generated {
        Ok(mut g) => {
            let mut out = cached;
            out.append(&mut g);
            Ok(out)
        },
        Err(e) => {
            if cached.len() > 0 {
                Ok(cached)
            } else {
                Err(e)
            }
        },
    }
}

// ── requests and the cache ───────────────────────────────────────

/// The body of a chat completion request, as `serde_json` writes the object (keys
/// in sorted order): the messages, the system one then the user one, each with its
/// content and role; then the model.
pub open spec fn request_body_of(model: Seq<char>, system: Seq<char>, user: Seq<char>) -> Seq<char> {
    "{\"messages\":[{\"content\":"@ + json_quoted(system) + ",\"role\":\"system\"},{\"content\":"@ + json_quoted(
        user,
    ) + ",\"role\":\"user\"}],\"model\":"@ + json_quoted(model) + "}"@
}

fn request_body(model: &str, system: &str, user: &str) -> (r: String)
    ensures
        r@ == request_body_of(model@, system@, user@),
{
    let mut b = "{\"messages\":[{\"content\":".to_string();
    b.append(quote_json(system).as_str());
    b.append(",\"role\":\"system\"},{\"content\":");
    b.append(quote_json(user).as_str());
    b.append(",\"role\":\"user\"}],\"model\":");
    b.append(quote_json(model).as_str());
    b.append("}");
    b
}

/// A generation request ready to send.
#[derive(Clone, Debug)]
pub struct BatchRequest {
    pub url: String,
    /// The JSON body.
    pub body: String,
}

/// The request for a batch of words: none for no words; an error when the
/// address is not configured; else the endpoint and the body with the trimmed
/// model, the system instruction and the user message.
pub fn batch_request(words: &Vec<GenWord>, cfg: &AiConfig) -> (r: Result<Option<BatchRequest>, AppError>)
    ensures
        words@.len() == 0 ==> r matches Ok(None),
        words@.len() > 0 ==> match chat_url_of(*cfg) {
            None => r matches Err(AppError::Network(m)) && m@ == "AI service address is not configured"@,
            Some(u) => r matches Ok(Some(b)) && b.url@ == u && b.body@ == request_body_of(
                trim(cfg.model@),
                SYSTEM_PROMPT@,
                user_prompt_of(words@, words@.len() as int),
            ),
        },
{
    if words.len() == 0 {
        return Ok(None);
    }
    let url = chat_url(cfg)?;
    let model = string_of(&trim_chars(&chars_of(cfg.model.as_str())));
    let user = user_prompt(words);
    let body = request_body(model.as_str(), SYSTEM_PROMPT, user.as_str());
    Ok(Some(BatchRequest { url, body }))
}

/// A cache row: key, word id, sense id, blanked sentence.
pub type CacheRow = (String, i64, Option<i64>, String);

/// The cache rows of the first `n` generated examples: each example whose word was
/// asked for, under that word's key.
pub open spec fn cache_rows_of(words: Seq<GenWord>, cfg: AiConfig, examples: Seq<AiExample>, n: int) -> Seq<(Seq<char>, i64, Option<i64>, Seq<char>)>
    decreases n,
{
    if n <= 0 {
        Seq::empty()
    } else {
        let prev = cache_rows_of(words, cfg, examples, n - 1);
        let e = examples[n - 1];
        match crate::scan::first_from(0, words.len() as int, word_pred(words, e.word_id)) {
            Some(k) => prev.push((cache_key_of(words[k], cfg), e.word_id, e.sense_id, e.sentence@)),
            None => prev,
        }
    }
}

pub open spec fn row_view(r: CacheRow) -> (Seq<char>, i64, Option<i64>, Seq<char>) {
    (r.0@, r.1, r.2, r.3@)
}

/// The rows to write to the cache for the generated examples (see `cache_rows_of`).
pub fn cache_rows(words: &Vec<GenWord>, cfg: &AiConfig, examples: &Vec<AiExample>) -> (r: Vec<CacheRow>)
    ensures
        r@.map_values(|x: CacheRow| row_view(x)) == cache_rows_of(words@, *cfg, examples@, examples@.len() as int),
{
    let mut out: Vec<CacheRow> = Vec::new();
    let mut i: usize = 0;
    while i < examples.len()
        invariant
            i <= examples.len(),
            out@.map_values(|x: CacheRow| row_view(x)) == cache_rows_of(words@, *cfg, examples@, i as int),
        decreases examples.len() - i,
    {
        let ghost before = out@;
        let e = &examples[i];
        match find_word(words, e.word_id) {
            Some(k) => {
                let key = cache_key(&words[k], cfg);
                out.push((key, e.word_id, e.sense_id, e.sentence.clone()));
                assert(out@.map_values(|x: CacheRow| row_view(x)) =~= before.map_values(|x: CacheRow| row_view(x)).push(
                    row_view(out@[out@.len() - 1]),
                ));
            },
            None => {},
        }
        i += 1;
    }
    out
}

/// The cache keys of the words, in order.
pub fn cache_keys(words: &Vec<GenWord>, cfg: &AiConfig) -> (r: Vec<String>)
    ensures
        r@.len() == words@.len(),
        forall|k: int| 0 <= k < words@.len() ==> (#[trigger] r@[k])@ == cache_key_of(words@[k], *cfg),
{
    let mut out: Vec<String> = Vec::new();
    let mut i: usize = 0;
    while i < words.len()
        invariant
            i <= words.len(),
            out@.len() == i,
            forall|k: int| 0 <= k < i ==> (#[trigger] out@[k])@ == cache_key_of(words@[k], *cfg),
        decreases words.len() - i,
    {
        out.push(cache_key(&words[i], cfg));
        i += 1;
    }
    out
}

/// The cached examples of the first `n` words: for each word with a cache hit
/// (sense id, blanked sentence), the example under the word's id.
pub open spec fn cached_of(words: Seq<GenWord>, hits: Seq<Option<(Option<i64>, String)>>, n: int) -> Seq<(i64, Option<i64>, Seq<char>)>
    decreases n,
{
    if n <= 0 {
        Seq::empty()
    } else {
        match hits[n - 1] {
            Some(h) => cached_of(words, hits, n - 1).push((words[n - 1].word_id, h.0, h.1@)),
            None => cached_of(words, hits, n - 1),
        }
    }
}

/// The cached examples of the words, given the cache lookup of each word's key
/// (in the order of the words).
pub fn cached_examples(words: &Vec<GenWord>, hits: &Vec<Option<(Option<i64>, String)>>) -> (r: Vec<AiExample>)
    requires
        hits@.len() == words@.len(),
    ensures
        r@.map_values(|e: AiExample| e@) == cached_of(words@, hits@, words@.len() as int),
{
    let mut out: Vec<AiExample> = Vec::new();
    let mut i: usize = 0;
    while i < words.len()
        invariant
            i <= words.len() == hits@.len(),
            out@.map_values(|e: AiExample| e@) == cached_of(words@, hits@, i as int),
        decreases words.len() - i,
    {
        let ghost before = out@;
        match &hits[i] {
            Some((sense_id, sentence)) => {
                out.push(AiExample { word_id: words[i].word_id, sense_id: *sense_id, sentence: sentence.clone() });
                assert(out@.map_values(|e: AiExample| e@) =~= before.map_values(|e: AiExample| e@).push(
                    out@[out@.len() - 1]@,
                ));
            },
            None => {},
        }
        i += 1;
    }
    out
}

/// What example generation does once the words are assembled: nothing to request
/// when generation is off, there are no words, or every word has a cached example;
/// otherwise the words without one.
pub fn generation_plan(enabled: bool, words: &Vec<GenWord>, cached: &Vec<AiExample>) -> (r: Option<Vec<GenWord>>)
    ensures
        match r {
            None => !enabled || words@.len() == 0 || missing_of(words@, cached@, words@.len() as int).len() == 0,
            Some(m) => enabled && m@ == missing_of(words@, cached@, words@.len() as int) && m@.len() > 0,
        },
{
    if !enabled || words.len() == 0 {
        return None;
    }
    let missing = missing_words(words, cached);
    if missing.len() == 0 {
        None
    } else {
        Some(missing)
    }
}

} // verus!
