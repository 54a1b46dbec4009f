//! Query helpers of the dictionary store: the FTS term quoting, the upper bound of
//! a prefix range, and how frequency-ranked and alphabetical suggestions combine.

use std::collections::HashMap;
use vstd::prelude::*;
use crate::text::{chars_of, copy_opt_string, string_of};
use crate::domain::{SenseId, WordId};
use crate::error::DictionaryError;
use super::model::{Collocation, Example, Sense, Suggestion, WordEntry};

verus! {

/// `char::from_u32`: the character with that scalar value, when it is one
/// (0 to 0x10FFFF without the surrogates 0xD800 to 0xDFFF).
#[verifier::external_body]
fn char_from_u32(n: u32) -> (r: Option<char>)
    ensures
        r is Some <==> (n <= 0xD7FF || (0xE000 <= n <= 0x10FFFF)),
        r matches Some(c) ==> c == (n as int) as char,
{
    char::from_u32(n)
}

/// `u32::from(char)`: the scalar value of the character, at most 0x10FFFF.
#[verifier::external_body]
fn scalar_of(c: char) -> (r: u32)
    ensures
        r as int == c as int,
        r <= 0x10FFFF,
{
    u32::from(c)
}

/// `n` is the scalar value of a character.
pub open spec fn scalar_value(n: int) -> bool {
    (0 <= n <= 0xD7FF) || (0xE000 <= n <= 0x10FFFF)
}

/// The least string above every string with the given prefix: the last character
/// raised by one, dropping trailing characters that cannot be raised; the highest
/// character when none can.
pub open spec fn upper_bound(p: Seq<char>) -> Seq<char>
    decreases p.len(),
{
    if p.len() == 0 {
        seq!['\u{10FFFF}']
    } else if scalar_value(p.last() as int + 1) {
        p.drop_last().push((p.last() as int + 1) as char)
    } else {
        upper_bound(p.drop_last())
    }
}

/// Code-point order of strings (the order of `String` and of SQLite's binary
/// collation on UTF-8 text).
pub open spec fn lex_less(a: Seq<char>, b: Seq<char>) -> bool
    decreases a.len(),
{
    if b.len() == 0 {
        false
    } else if a.len() == 0 {
        true
    } else if a[0] != b[0] {
        (a[0] as int) < (b[0] as int)
    } else {
        lex_less(a.drop_first(), b.drop_first())
    }
}

proof fn lemma_lex_less_at(a: Seq<char>, b: Seq<char>, k: int)
    requires
        0 <= k < a.len(),
        k < b.len(),
        a.subrange(0, k) == b.subrange(0, k),
        (a[k] as int) < (b[k] as int),
    ensures
        lex_less(a, b),
    decreases k,
{
    if k > 0 {
        assert(a[0] == a.subrange(0, k)[0]);
        assert(b[0] == b.subrange(0, k)[0]);
        assert(a.drop_first().subrange(0, k - 1) =~= a.subrange(0, k).drop_first());
        assert(b.drop_first().subrange(0, k - 1) =~= b.subrange(0, k).drop_first());
        lemma_lex_less_at(a.drop_first(), b.drop_first(), k - 1);
    }
}

/// A string that starts with the prefix sorts below the prefix's upper bound, so an
/// index range scan up to the bound finds it; with one exception, left out below:
/// when no character of the prefix can be raised, the bound is U+10FFFF alone, and
/// a string that starts with U+10FFFF does not sort below it (the prefix
/// U+10FFFF U+D7FF is such a case).
pub proof fn lemma_prefix_below_bound(p: Seq<char>, s: Seq<char>)
    requires
        p.len() <= s.len(),
        s.subrange(0, p.len() as int) == p,
        !(upper_bound(p) == seq!['\u{10FFFF}'] && s.len() > 0 && (s[0] as int) >= 0x10FFFF),
    ensures
        lex_less(s, upper_bound(p)),
    decreases p.len(),
{
    if p.len() == 0 {
    } else if scalar_value(p.last() as int + 1) {
        let k = p.len() - 1;
        let b = upper_bound(p);
        assert(b.subrange(0, k) =~= p.subrange(0, k));
        assert(s.subrange(0, k) =~= s.subrange(0, p.len() as int).subrange(0, k));
        assert(s[k] == p[k]);
        lemma_lex_less_at(s, b, k);
    } else {
        let q = p.drop_last();
        assert(s.subrange(0, q.len() as int) =~= s.subrange(0, p.len() as int).subrange(0, q.len() as int));
        lemma_prefix_below_bound(q, s);
    }
}

/// The exclusive upper bound of the range of words that start with `prefix`
/// ("met" → "meu"), for an index range scan.
pub fn prefix_upper_bound(prefix: &str) -> (r: String)
    ensures
        r@ == upper_bound(prefix@),
{
    let mut bound = chars_of(prefix);
    while bound.len() > 0
        invariant
            upper_bound(prefix@) == upper_bound(bound@),
        decreases bound.len(),
    {
        let ghost before = bound@;
        let last = bound.pop().unwrap();
        assert(bound@ == before.drop_last());
        let code = scalar_of(last) + 1;
        match char_from_u32(code) {
            Some(next) => {
                bound.push(next);
                assert(bound@ =~= before.drop_last().push((before.last() as int + 1) as char));
                return string_of(&bound);
            },
            None => {},
        }
    }
    let mut top: Vec<char> = Vec::new();
    top.push('\u{10FFFF}');
    string_of(&top)
}

/// Every straight double quote doubled.
pub open spec fn double_quotes(s: Seq<char>) -> Seq<char>
    decreases s.len(),
{
    if s.len() == 0 {
        Seq::empty()
    } else {
        double_quotes(s.drop_last()) + if s.last() == '"' {
            seq!['"', '"']
        } else {
            seq![s.last()]
        }
    }
}

/// An FTS5 string term: the term in double quotes, inner double quotes doubled.
pub fn fts_quote_term(term: &str) -> (r: String)
    ensures
        r@ == seq!['"'] + double_quotes(term@) + seq!['"'],
{
    let t = chars_of(term);
    let mut out: Vec<char> = Vec::new();
    out.push('"');
    let mut i: usize = 0;
    while i < t.len()
        invariant
            i <= t.len(),
            out@ == seq!['"'] + double_quotes(t@.subrange(0, i as int)),
        decreases t.len() - i,
    {
        let c = t[i];
        proof {
            assert(t@.subrange(0, i + 1).drop_last() =~= t@.subrange(0, i as int));
        }
        if c == '"' {
            out.push('"');
            out.push('"');
            assert(out@ =~= seq!['"'] + double_quotes(t@.subrange(0, i + 1)));
        } else {
            out.push(c);
            assert(out@ =~= seq!['"'] + double_quotes(t@.subrange(0, i + 1)));
        }
        i += 1;
    }
    assert(t@.subrange(0, i as int) =~= t@);
    out.push('"');
    string_of(&out)
}

/// Some ranked suggestion has this word.
pub open spec fn ranked_has(ranked: Seq<Suggestion>, w: Seq<char>) -> bool {
    exists|k: int| 0 <= k < ranked.len() && #[trigger] ranked[k].word@ == w
}

/// The ranked suggestions topped up with the first `n` alphabetical rows: rows whose
/// word is already ranked are skipped, and nothing is added once `limit` is reached.
pub open spec fn topped_up(ranked: Seq<Suggestion>, alpha: Seq<Suggestion>, n: int, limit: nat) -> Seq<Suggestion>
    decreases n,
{
    if n <= 0 {
        ranked
    } else {
        let prev = topped_up(ranked, alpha, n - 1, limit);
        if prev.len() >= limit || ranked_has(ranked, alpha[n - 1].word@) {
            prev
        } else {
            prev.push(alpha[n - 1])
        }
    }
}

/// The suggestion spells the query exactly.
pub open spec fn is_exact(s: Suggestion, q: Seq<char>) -> bool {
    s.word@ == q
}

/// The final order: exact matches first, the rest after, each in its order, cut at `limit`.
pub open spec fn exact_first(rows: Seq<Suggestion>, q: Seq<char>, limit: nat) -> Seq<Suggestion> {
    (rows.filter(|s: Suggestion| is_exact(s, q)) + rows.filter(|s: Suggestion| !is_exact(s, q))).take(
        if rows.len() <= limit {
            rows.len() as int
        } else {
            limit as int
        },
    )
}

/// Whether the alphabetical top-up is needed: fewer ranked rows than the limit.
pub fn wants_alphabetical(ranked: &Vec<Suggestion>, limit: u8) -> (r: bool)
    ensures
        r == (ranked@.len() < limit),
{
    ranked.len() < limit as usize
}

fn word_in_prefix(rows: &Vec<Suggestion>, n: usize, w: &String) -> (r: bool)
    requires
        n <= rows@.len(),
    ensures
        r == ranked_has(rows@.subrange(0, n as int), w@),
{
    let ghost pre = rows@.subrange(0, n as int);
    let mut k: usize = 0;
    while k < n
        invariant
            n <= rows@.len(),
            pre == rows@.subrange(0, n as int),
            k <= n,
            forall|j: int| 0 <= j < k ==> rows@[j].word@ != w@,
        decreases n - k,
    {
        if rows[k].word == *w {
            assert(pre[k as int] == rows@[k as int]);
            return true;
        }
        k += 1;
    }
    assert forall|j: int| 0 <= j < pre.len() implies #[trigger] pre[j].word@ != w@ by {
        assert(pre[j] == rows@[j]);
    }
    false
}

proof fn lemma_filter_push(rows: Seq<Suggestion>, x: Suggestion, p: spec_fn(Suggestion) -> bool)
    ensures
        rows.push(x).filter(p) == if p(x) {
            rows.filter(p).push(x)
        } else {
            rows.filter(p)
        },
{
    reveal(Seq::filter);
    assert(rows.push(x).drop_last() =~= rows);
}

proof fn lemma_filters_len(rows: Seq<Suggestion>, q: Seq<char>)
    ensures
        rows.filter(|s: Suggestion| is_exact(s, q)).len() + rows.filter(|s: Suggestion| !is_exact(s, q)).len()
            == rows.len(),
    decreases rows.len(),
{
    reveal(Seq::filter);
    if rows.len() > 0 {
        lemma_filters_len(rows.drop_last(), q);
    }
}

/// Combines frequency-ranked rows with alphabetical rows (see `topped_up`), then
/// brings exact matches of the query to the front, keeping the order otherwise,
/// and cuts at `limit`.
pub fn merge_suggestions(
    ranked: Vec<Suggestion>,
    alphabetical: Vec<Suggestion>,
    query: &str,
    limit: u8,
) -> (r: Vec<Suggestion>)
    ensures
        r@ == exact_first(
            topped_up(ranked@, alphabetical@, alphabetical@.len() as int, limit as nat),
            query@,
            limit as nat,
        ),
{
    let ghost r0 = ranked@;
    let ghost a0 = alphabetical@;
    let n0 = ranked.len();
    let mut rows = ranked;
    for s in it: alphabetical
        invariant
            it.seq() == a0,
            n0 == r0.len(),
            rows@ == topped_up(r0, a0, it.index() as int, limit as nat),
            rows@.len() >= n0,
            rows@.subrange(0, n0 as int) == r0,
    {
        let ghost prev = rows@;
        if rows.len() < limit as usize && !word_in_prefix(&rows, n0, &s.word) {
            rows.push(s);
            assert(rows@.subrange(0, n0 as int) =~= prev.subrange(0, n0 as int));
        }
    }
    let ghost merged = rows@;
    let mut front: Vec<Suggestion> = Vec::new();
    let mut back: Vec<Suggestion> = Vec::new();
    let q = chars_of(query);
    let qs = string_of(&q);
    for s in it: rows
        invariant
            it.seq() == merged,
            qs@ == query@,
            front@ == merged.subrange(0, it.index() as int).filter(|x: Suggestion| is_exact(x, query@)),
            back@ == merged.subrange(0, it.index() as int).filter(|x: Suggestion| !is_exact(x, query@)),
    {
        proof {
            assert(merged.subrange(0, it.index() + 1) =~= merged.subrange(0, it.index() as int).push(
                merged[it.index() as int],
            ));
            lemma_filter_push(merged.subrange(0, it.index() as int), merged[it.index() as int], |x: Suggestion| is_exact(x, query@));
            lemma_filter_push(merged.subrange(0, it.index() as int), merged[it.index() as int], |x: Suggestion| !is_exact(x, query@));
        }
        if s.word == qs {
            front.push(s);
        } else {
            back.push(s);
        }
    }
    assert(merged.subrange(0, merged.len() as int) =~= merged);
    proof {
        lemma_filters_len(merged, query@);
    }
    front.append(&mut back);
    let total = front.len();
    let cut = if total <= limit as usize {
        total
    } else {
        limit as usize
    };
    front.truncate(cut);
    assert(front@ =~= exact_first(merged, query@, limit as nat));
    front
}

/// The FTS5 pattern of a diacritic-folded head-word match: the quoted term in the
/// `word` column.
pub fn folded_pattern(word: &str) -> (r: String)
    ensures
        r@ == "word:"@ + seq!['"'] + double_quotes(word@) + seq!['"'],
{
    let mut p = "word:".to_string();
    p.append(fts_quote_term(word).as_str());
    p
}

/// `n` parameter marks separated by commas.
pub open spec fn placeholders(n: nat) -> Seq<char>
    decreases n,
{
    if n == 0 {
        Seq::empty()
    } else if n == 1 {
        seq!['?']
    } else {
        placeholders((n - 1) as nat) + seq![',', '?']
    }
}

/// The query for the display data of `n` words by id.
pub fn briefs_query(n: usize) -> (r: String)
    ensures
        r@ == "SELECT id, word, display, phonetic FROM words WHERE id IN ("@ + placeholders(n as nat) + seq![')'],
{
    let mut marks: Vec<char> = Vec::new();
    let mut i: usize = 0;
    while i < n
        invariant
            i <= n,
            marks@ == placeholders(i as nat),
        decreases n - i,
    {
        if i > 0 {
            marks.push(',');
        }
        marks.push('?');
        proof {
            if i > 0 {
                assert(marks@ =~= placeholders(i as nat) + seq![',', '?']);
            } else {
                assert(marks@ =~= seq!['?']);
            }
        }
        i += 1;
    }
    marks.push(')');
    let mut q = "SELECT id, word, display, phonetic FROM words WHERE id IN (".to_string();
    q.append(string_of(&marks).as_str());
    q
}

// ── entry assembly ────────────────────────────────────────────────

/// What `serde_json` reads from a stored JSON list of strings: the strings, or
/// the text of the error.
pub uninterp spec fn json_strings(text: Seq<char>) -> Result<Seq<Seq<char>>, Seq<char>>;

/// `serde_json` reads exactly these strings from the text.
pub open spec fn reads_as(text: Seq<char>, l: Seq<Seq<char>>) -> bool {
    json_strings(text) == Ok::<Seq<Seq<char>>, Seq<char>>(l)
}

pub open spec fn strings_view(v: Seq<String>) -> Seq<Seq<char>> {
    v.map_values(|s: String| s@)
}

/// Reads a stored JSON list of strings with `serde_json::from_str::<Vec<String>>`;
/// the outcome is named by `json_strings`.
#[verifier::external_body]
fn parse_string_list(text: &str) -> (r: Result<Vec<String>, String>)
    ensures
        match json_strings(text@) {
            Ok(l) => r matches Ok(v) && strings_view(v@) == l,
            Err(m) => r matches Err(x) && x@ == m,
        },
{
    serde_json::from_str::<Vec<String>>(text).map_err(|e| e.to_string())
}

/// The head row of a word as stored: the word lists are JSON text.
#[derive(Clone, Debug)]
pub struct EntryHead {
    pub word: String,
    pub display: String,
    pub phonetic: Option<String>,
    pub frequency_rank: Option<i64>,
    pub synonyms: String,
    pub antonyms: String,
    pub word_family: String,
}

/// The examples of the first `n` example rows that belong to the sense `sid`, in order.
pub open spec fn examples_upto(rows: Seq<(i64, Example)>, sid: i64, n: int) -> Seq<Example>
    decreases n,
{
    if n <= 0 {
        Seq::empty()
    } else if rows[n - 1].0 == sid {
        examples_upto(rows, sid, n - 1).push(rows[n - 1].1)
    } else {
        examples_upto(rows, sid, n - 1)
    }
}

/// The examples that the `k`-th sense receives: its rows, in order, unless an
/// earlier sense has the same id and took them already.
pub open spec fn examples_for(senses: Seq<Sense>, rows: Seq<(i64, Example)>, k: int) -> Seq<Example> {
    if exists|j: int| 0 <= j < k && #[trigger] senses[j].id == senses[k].id {
        Seq::empty()
    } else {
        examples_upto(rows, senses[k].id.0, rows.len() as int)
    }
}

/// The `k`-th sense of the assembled entry has the fields of the `k`-th sense row
/// and its examples.
pub open spec fn assembled_sense(got: Sense, senses: Seq<Sense>, rows: Seq<(i64, Example)>, k: int) -> bool {
    &&& got.id == senses[k].id
    &&& got.pos == senses[k].pos
    &&& got.english_definition == senses[k].english_definition
    &&& got.chinese_definition == senses[k].chinese_definition
    &&& got.level == senses[k].level
    &&& got.examples@ == examples_for(senses, rows, k)
}

/// The frequency rank as the entry holds it: the stored number cut to 32 bits.
pub open spec fn rank_u32(v: Option<i64>) -> Option<u32> {
    match v {
        Some(x) => Some(x as u32),
        None => None,
    }
}

fn string_list(text: &String) -> (r: Result<Vec<String>, DictionaryError>)
    ensures
        match json_strings(text@) {
            Ok(l) => r matches Ok(v) && strings_view(v@) == l,
            Err(m) => r matches Err(DictionaryError::Data(x)) && x@ == m,
        },
{
    match parse_string_list(text.as_str()) {
        Ok(v) => Ok(v),
        Err(m) => Err(DictionaryError::Data(m)),
    }
}

/// The example rows grouped by sense id: a sense id is a key exactly when some row
/// has it, and its value is those rows' examples in order.
fn group_examples(rows: &Vec<(i64, Example)>) -> (m: HashMap<i64, Vec<Example>>)
    ensures
        forall|sid: i64| #[trigger] m@.contains_key(sid) <==> examples_upto(rows@, sid, rows@.len() as int).len() > 0,
        forall|sid: i64| #[trigger] m@.contains_key(sid) ==> m@[sid]@ == examples_upto(rows@, sid, rows@.len() as int),
{
    let mut m: HashMap<i64, Vec<Example>> = HashMap::new();
    let mut i: usize = 0;
    while i < rows.len()
        invariant
            i <= rows.len(),
            forall|sid: i64| #[trigger] m@.contains_key(sid) <==> examples_upto(rows@, sid, i as int).len() > 0,
            forall|sid: i64| #[trigger] m@.contains_key(sid) ==> m@[sid]@ == examples_upto(rows@, sid, i as int),
        decreases rows.len() - i,
    {
        let sid = rows[i].0;
        let e = &rows[i].1;
        let copy = Example { id: e.id, text: e.text.clone(), translation: copy_opt_string(&e.translation) };
        let mut group = match m.remove(&sid) {
            Some(g) => g,
            None => Vec::new(),
        };
        group.push(copy);
        m.insert(sid, group);
        proof {
            assert forall|s2: i64| #[trigger] m@.contains_key(s2) <==> examples_upto(rows@, s2, i + 1).len() > 0 by {
                if s2 != sid {
                    assert(examples_upto(rows@, s2, i + 1) == examples_upto(rows@, s2, i as int));
                }
            }
            assert forall|s2: i64| #[trigger] m@.contains_key(s2) implies m@[s2]@ == examples_upto(rows@, s2, i + 1) by {
                if s2 != sid {
                    assert(examples_upto(rows@, s2, i + 1) == examples_upto(rows@, s2, i as int));
                } else {
                    assert(examples_upto(rows@, sid, i as int).len() == 0 ==> examples_upto(rows@, sid, i as int) =~= Seq::<Example>::empty());
                }
            }
        }
        i += 1;
    }
    m
}

/// A full entry from its head row, its sense rows in order (their examples are
/// ignored), its example rows in order as (sense id, example) and its collocations
/// in order. The three word lists are read in turn; the first that is not a JSON
/// list of strings is the error.
pub fn assemble_entry(
    id: WordId,
    head: EntryHead,
    senses: Vec<Sense>,
    examples: Vec<(i64, Example)>,
    collocations: Vec<Collocation>,
) -> (r: Result<WordEntry, DictionaryError>)
    ensures
        match json_strings(head.synonyms@) {
            Err(m) => r matches Err(DictionaryError::Data(x)) && x@ == m,
            Ok(_) => match json_strings(head.antonyms@) {
                Err(m) => r matches Err(DictionaryError::Data(x)) && x@ == m,
                Ok(_) => match json_strings(head.word_family@) {
                    Err(m) => r matches Err(DictionaryError::Data(x)) && x@ == m,
                    Ok(_) => r is Ok,
                },
            },
        },
        r matches Ok(e) ==> {
            &&& reads_as(head.synonyms@, strings_view(e.synonyms@))
            &&& reads_as(head.antonyms@, strings_view(e.antonyms@))
            &&& reads_as(head.word_family@, strings_view(e.word_family@))
            &&& e.id == id
            &&& e.word == head.word
            &&& e.display == head.display
            &&& e.phonetic == head.phonetic
            &&& e.frequency_rank == rank_u32(head.frequency_rank)
            &&& e.collocations == collocations
            &&& e.senses@.len() == senses@.len()
            &&& forall|k: int| 0 <= k < senses@.len() ==> assembled_sense(#[trigger] e.senses@[k], senses@, examples@, k)
        },
{
    let synonyms = string_list(&head.synonyms)?;
    let antonyms = string_list(&head.antonyms)?;
    let word_family = string_list(&head.word_family)?;
    let mut by_sense = group_examples(&examples);
    let ghost rows = examples@;
    let mut out: Vec<Sense> = Vec::new();
    let ghost s0 = senses@;
    let mut k: usize = 0;
    while k < senses.len()
        invariant
            k <= senses.len(),
            s0 == senses@,
            rows == examples@,
            out@.len() == k,
            forall|j: int| 0 <= j < k ==> assembled_sense(#[trigger] out@[j], s0, rows, j),
            forall|sid: i64| #[trigger] by_sense@.contains_key(sid) <==> (examples_upto(rows, sid, rows.len() as int).len() > 0
                && !exists|j: int| 0 <= j < k && #[trigger] s0[j].id.0 == sid),
            forall|sid: i64| #[trigger] by_sense@.contains_key(sid) ==> by_sense@[sid]@ == examples_upto(rows, sid, rows.len() as int),
        decreases senses.len() - k,
    {
        let sid = senses[k].id;
        let ghost before = by_sense@;
        let ghost old_out = out@;
        let ex = match by_sense.remove(&sid.0) {
            Some(g) => g,
            None => Vec::new(),
        };
        proof {
            let all = examples_upto(rows, sid.0, rows.len() as int);
            if exists|j: int| 0 <= j < k && #[trigger] s0[j].id == s0[k as int].id {
                let j = choose|j: int| 0 <= j < k && #[trigger] s0[j].id == s0[k as int].id;
                assert(s0[j].id.0 == sid.0);
                assert(!before.contains_key(sid.0));
            } else {
                assert forall|j: int| 0 <= j < k implies #[trigger] s0[j].id.0 != sid.0 by {
                    if s0[j].id.0 == sid.0 {
                        assert(s0[j].id == s0[k as int].id);
                    }
                }
                if !before.contains_key(sid.0) {
                    assert(all =~= Seq::<Example>::empty());
                }
            }
            assert(ex@ == examples_for(s0, rows, k as int));
            assert forall|s2: i64| #[trigger] by_sense@.contains_key(s2) <==> (examples_upto(rows, s2, rows.len() as int).len() > 0
                && !exists|j: int| 0 <= j < k + 1 && #[trigger] s0[j].id.0 == s2) by {
                if s2 != sid.0 {
                    if exists|j: int| 0 <= j < k + 1 && #[trigger] s0[j].id.0 == s2 {
                        let j = choose|j: int| 0 <= j < k + 1 && #[trigger] s0[j].id.0 == s2;
                        assert(j < k);
                    }
                } else {
                    assert(s0[k as int].id.0 == s2);
                }
            }
        }
        let s = &senses[k];
        let sense = Sense {
            id: s.id,
            pos: copy_opt_string(&s.pos),
            english_definition: s.english_definition.clone(),
            chinese_definition: copy_opt_string(&s.chinese_definition),
            level: copy_opt_string(&s.level),
            examples: ex,
        };
        out.push(sense);
        proof {
            assert forall|j: int| 0 <= j < k + 1 implies assembled_sense(#[trigger] out@[j], s0, rows, j) by {
                if j < k {
                    assert(out@[j] == old_out[j]);
                }
            }
        }
        k += 1;
    }
    let rank = match head.frequency_rank {
        Some(v) => Some(#[verifier::truncate] (v as u32)),
        None => None,
    };
    Ok(WordEntry {
        id,
        word: head.word,
        display: head.display,
        phonetic: head.phonetic,
        senses: out,
        collocations,
        synonyms,
        antonyms,
        word_family,
        frequency_rank: rank,
    })
}

} // verus!
