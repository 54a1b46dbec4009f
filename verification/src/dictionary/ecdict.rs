//! How one row of the ECDICT `stardict` table becomes a dictionary word: the
//! normalised head word, the phonetic in slashes, the frequency rank, the senses
//! (English and Chinese lines paired when their counts agree) and the inflected
//! forms of the `exchange` column.

use vstd::prelude::*;
use crate::error::DictionaryError;
use crate::text::{chars_of, lemma_trim_nonempty, nonblank, string_of, trim, trim_chars, whitespace};
use super::engine::{normalize_word, normalized};

verus! {

/// An ECDICT `stardict.db` as a dictionary source (its path on disk).
#[derive(Clone, Debug)]
pub struct EcdictProvider {
    pub source_path: String,
}

impl EcdictProvider {
    /// A source is an ECDICT database only when it has the `stardict` table
    /// (`stardict_tables` counts the tables of that name).
    pub fn check_source(&self, stardict_tables: i64) -> (r: Result<(), DictionaryError>)
        ensures
            r is Ok <==> stardict_tables != 0,
            r matches Err(e) ==> (e matches DictionaryError::InvalidSource(m) && m@
                == "not an ECDICT stardict.db (table `stardict` missing)"@),
    {
        if stardict_tables == 0 {
            Err(DictionaryError::InvalidSource("not an ECDICT stardict.db (table `stardict` missing)".to_string()))
        } else {
            Ok(())
        }
    }

    /// The source name written with every imported word.
    pub fn name(&self) -> (r: &'static str)
        ensures
            r@ == "ecdict"@,
    {
        "ecdict"
    }
}

// ── lines ──────────────────────────────────────────────────────────

/// The pieces of `s` between separators (`str::split`): one more than there are separators.
pub open spec fn split_on(s: Seq<char>, sep: char) -> Seq<Seq<char>>
    decreases s.len(),
{
    if s.len() == 0 {
        seq![Seq::empty()]
    } else {
        let prev = split_on(s.drop_last(), sep);
        if s.last() == sep {
            prev.push(Seq::empty())
        } else {
            prev.update(prev.len() - 1, prev.last().push(s.last()))
        }
    }
}

proof fn lemma_split_on_nonempty(s: Seq<char>, sep: char)
    ensures
        split_on(s, sep).len() >= 1,
    decreases s.len(),
{
    if s.len() > 0 {
        lemma_split_on_nonempty(s.drop_last(), sep);
    }
}

/// The first `n` pieces, trimmed, without the blank ones.
pub open spec fn kept_lines(segs: Seq<Seq<char>>, n: int) -> Seq<Seq<char>>
    decreases n,
{
    if n <= 0 {
        Seq::empty()
    } else {
        let prev = kept_lines(segs, n - 1);
        let t = trim(segs[n - 1]);
        if t.len() > 0 {
            prev.push(t)
        } else {
            prev
        }
    }
}

proof fn lemma_kept_prefix(a: Seq<Seq<char>>, b: Seq<Seq<char>>, n: int)
    requires
        0 <= n <= a.len(),
        n <= b.len(),
        forall|k: int| 0 <= k < n ==> a[k] == b[k],
    ensures
        kept_lines(a, n) == kept_lines(b, n),
    decreases n,
{
    if n > 0 {
        lemma_kept_prefix(a, b, n - 1);
    }
}

/// The lines of a multi-line field, each trimmed, blank ones dropped.
pub open spec fn field_lines(value: Option<Seq<char>>) -> Seq<Seq<char>> {
    match value {
        None => Seq::empty(),
        Some(s) => {
            let segs = split_on(s, '\n');
            kept_lines(segs, segs.len() as int)
        },
    }
}

fn finish_line(out: &mut Vec<Vec<char>>, cur: &Vec<char>)
    ensures
        final(out)@.map_values(|l: Vec<char>| l@) == if trim(cur@).len() > 0 {
            old(out)@.map_values(|l: Vec<char>| l@).push(trim(cur@))
        } else {
            old(out)@.map_values(|l: Vec<char>| l@)
        },
{
    let t = trim_chars(cur);
    if t.len() > 0 {
        let ghost before = out@;
        out.push(t);
        assert(out@.map_values(|l: Vec<char>| l@) =~= before.map_values(|l: Vec<char>| l@).push(trim(cur@)));
    }
}

/// Splits a multi-line field (`str::lines`, then `trim`, then blank lines dropped).
pub fn split_lines(value: &Option<String>) -> (r: Vec<Vec<char>>)
    ensures
        r@.map_values(|l: Vec<char>| l@) == field_lines(
            match value {
                Some(s) => Some(s@),
                None => None,
            },
        ),
{
    let mut out: Vec<Vec<char>> = Vec::new();
    let s = match value {
        None => {
            assert(out@.map_values(|l: Vec<char>| l@) =~= Seq::<Seq<char>>::empty());
            return out;
        },
        Some(s) => s,
    };
    let c = chars_of(s.as_str());
    let mut cur: Vec<char> = Vec::new();
    let mut i: usize = 0;
    assert(c@.subrange(0, 0) =~= Seq::<char>::empty());
    assert(split_on(Seq::<char>::empty(), '\n') == seq![Seq::<char>::empty()]);
    assert(cur@ =~= Seq::<char>::empty());
    assert(out@.map_values(|l: Vec<char>| l@) =~= kept_lines(seq![Seq::<char>::empty()], 0));
    while i < c.len()
        invariant
            i <= c.len(),
            split_on(c@.subrange(0, i as int), '\n').len() >= 1,
            cur@ == split_on(c@.subrange(0, i as int), '\n').last(),
            out@.map_values(|l: Vec<char>| l@) == kept_lines(
                split_on(c@.subrange(0, i as int), '\n'),
                split_on(c@.subrange(0, i as int), '\n').len() - 1,
            ),
        decreases c.len() - i,
    {
        let ghost segs = split_on(c@.subrange(0, i as int), '\n');
        let ghost before = out@.map_values(|l: Vec<char>| l@);
        assert(c@.subrange(0, i + 1).drop_last() =~= c@.subrange(0, i as int));
        assert(c@.subrange(0, i + 1).last() == c@[i as int]);
        let ch = c[i];
        if ch == '\n' {
            finish_line(&mut out, &cur);
            cur = Vec::new();
            proof {
                let segs2 = split_on(c@.subrange(0, i + 1), '\n');
                assert(segs2 == segs.push(Seq::<char>::empty()));
                lemma_kept_prefix(segs, segs2, segs.len() - 1);
                assert(segs2[segs.len() - 1] == segs.last());
                assert(out@.map_values(|l: Vec<char>| l@) =~= kept_lines(segs2, segs2.len() - 1));
                assert(cur@ =~= segs2.last());
            }
        } else {
            cur.push(ch);
            proof {
                let segs2 = split_on(c@.subrange(0, i + 1), '\n');
                assert(segs2 == segs.update(segs.len() - 1, segs.last().push(ch)));
                lemma_kept_prefix(segs, segs2, segs.len() - 1);
            }
        }
        i += 1;
    }
    assert(c@.subrange(0, i as int) =~= s@);
    let ghost segs = split_on(s@, '\n');
    let ghost before = out@.map_values(|l: Vec<char>| l@);
    finish_line(&mut out, &cur);
    assert(out@.map_values(|l: Vec<char>| l@) =~= kept_lines(segs, segs.len() as int));
    out
}

/// The lines joined by '\n' (`join("\n")`).
pub open spec fn join_lines(lines: Seq<Seq<char>>) -> Seq<char>
    decreases lines.len(),
{
    if lines.len() == 0 {
        Seq::empty()
    } else if lines.len() == 1 {
        lines[0]
    } else {
        join_lines(lines.drop_last()) + seq!['\n'] + lines.last()
    }
}

fn join_with_newlines(lines: &Vec<Vec<char>>) -> (r: String)
    ensures
        r@ == join_lines(lines@.map_values(|l: Vec<char>| l@)),
{
    let ghost lv = lines@.map_values(|l: Vec<char>| l@);
    let mut out: Vec<char> = Vec::new();
    let mut i: usize = 0;
    while i < lines.len()
        invariant
            i <= lines.len(),
            lv == lines@.map_values(|l: Vec<char>| l@),
            out@ == join_lines(lv.subrange(0, i as int)),
        decreases lines.len() - i,
    {
        let ghost pre = out@;
        if i > 0 {
            out.push('\n');
        }
        let line = &lines[i];
        let mut k: usize = 0;
        let ghost mid = out@;
        while k < line.len()
            invariant
                k <= line.len(),
                out@ == mid + line@.subrange(0, k as int),
            decreases line.len() - k,
        {
            out.push(line[k]);
            assert(line@.subrange(0, k + 1) =~= line@.subrange(0, k as int).push(line@[k as int]));
            k += 1;
        }
        proof {
            assert(line@.subrange(0, k as int) =~= line@);
            let p1 = lv.subrange(0, i + 1);
            assert(p1.drop_last() =~= lv.subrange(0, i as int));
            assert(p1.last() == line@);
            if i == 0 {
                assert(p1.len() == 1);
                assert(out@ =~= p1[0]);
            } else {
                assert(out@ =~= join_lines(p1.drop_last()) + seq!['\n'] + p1.last());
            }
        }
        i += 1;
    }
    assert(lv.subrange(0, i as int) =~= lv);
    string_of(&out)
}

// ── rows ───────────────────────────────────────────────────────────

/// The columns of a `stardict` row that the import reads.
#[derive(Clone, Debug)]
pub struct EcdictRow {
    pub word: Option<String>,
    pub phonetic: Option<String>,
    pub definition: Option<String>,
    pub translation: Option<String>,
    pub frq: Option<i64>,
    pub bnc: Option<i64>,
    pub exchange: Option<String>,
}

/// What a row becomes: the word to insert (unless it already exists), its senses
/// (English, Chinese) in order, and its inflected forms.
#[derive(Clone, Debug)]
pub struct EcdictRecord {
    pub word: String,
    pub display: String,
    pub phonetic: Option<String>,
    pub frequency_rank: Option<i64>,
    pub senses: Vec<(String, Option<String>)>,
    pub forms: Vec<String>,
}

pub open spec fn opt_view(s: Option<String>) -> Option<Seq<char>> {
    match s {
        Some(x) => Some(x@),
        None => None,
    }
}

/// The phonetic, trimmed, in slashes (kept as is when it already starts with one);
/// none when blank.
pub open spec fn phonetic_of(p: Option<Seq<char>>) -> Option<Seq<char>> {
    match p {
        None => None,
        Some(raw) => {
            let t = trim(raw);
            if t.len() == 0 {
                None
            } else if t[0] == '/' {
                Some(t)
            } else {
                Some(seq!['/'] + t + seq!['/'])
            }
        },
    }
}

/// The frequency rank: the corpus rank when positive, else the BNC rank when positive.
pub open spec fn rank_of(frq: Option<i64>, bnc: Option<i64>) -> Option<i64> {
    if frq matches Some(f) && f > 0 {
        frq
    } else if bnc matches Some(b) && b > 0 {
        bnc
    } else {
        None
    }
}

/// The senses: line by line when the English and Chinese line counts agree and
/// exceed one; otherwise one sense of all English lines and all Chinese lines.
pub open spec fn senses_of(en: Seq<Seq<char>>, zh: Seq<Seq<char>>) -> Seq<(Seq<char>, Option<Seq<char>>)> {
    if en.len() == zh.len() && en.len() > 1 {
        Seq::new(en.len(), |i: int| (en[i], Some(zh[i])))
    } else {
        seq![(join_lines(en), if zh.len() > 0 {
            Some(join_lines(zh))
        } else {
            None
        })]
    }
}

/// The index of the first ':' of a token, when there is one.
pub open spec fn colon_at(t: Seq<char>) -> Option<int> {
    crate::scan::first_from(0, t.len() as int, |k: int| t[k] == ':')
}

/// The inflected forms of the first `n` exchange tokens ("kind:form"): the part
/// after the first ':', normalised, when not blank and not the word itself.
pub open spec fn forms_of(tokens: Seq<Seq<char>>, n: int, word: Seq<char>) -> Seq<Seq<char>>
    decreases n,
{
    if n <= 0 {
        Seq::empty()
    } else {
        let prev = forms_of(tokens, n - 1, word);
        let t = tokens[n - 1];
        match colon_at(t) {
            None => prev,
            Some(k) => {
                let f = normalized(t.subrange(k + 1, t.len() as int));
                if f.len() > 0 && f != word {
                    prev.push(f)
                } else {
                    prev
                }
            },
        }
    }
}

/// The whole mapping of a row; `None` when the row is skipped: no word, a word
/// that normalises to nothing, or no definition and no translation.
pub open spec fn ecdict_record(row: EcdictRow) -> Option<(
    Seq<char>,
    Seq<char>,
    Option<Seq<char>>,
    Option<i64>,
    Seq<(Seq<char>, Option<Seq<char>>)>,
    Seq<Seq<char>>,
)> {
    let raw = match row.word {
        Some(w) => trim(w@),
        None => Seq::empty(),
    };
    let word = normalized(raw);
    let zh = field_lines(opt_view(row.translation));
    let en = field_lines(opt_view(row.definition));
    if raw.len() == 0 || word.len() == 0 || (en.len() == 0 && zh.len() == 0) {
        None
    } else {
        let forms = match row.exchange {
            None => Seq::empty(),
            Some(x) => {
                let toks = split_on(x@, '/');
                forms_of(toks, toks.len() as int, word)
            },
        };
        Some((word, raw, phonetic_of(opt_view(row.phonetic)), rank_of(row.frq, row.bnc), senses_of(en, zh), forms))
    }
}

/// The view of a record, comparable with `ecdict_record`.
pub open spec fn record_view(r: EcdictRecord) -> (
    Seq<char>,
    Seq<char>,
    Option<Seq<char>>,
    Option<i64>,
    Seq<(Seq<char>, Option<Seq<char>>)>,
    Seq<Seq<char>>,
) {
    (
        r.word@,
        r.display@,
        opt_view(r.phonetic),
        r.frequency_rank,
        r.senses@.map_values(|s: (String, Option<String>)| (s.0@, opt_view(s.1))),
        r.forms@.map_values(|f: String| f@),
    )
}

fn phonetic_text(p: &Option<String>) -> (r: Option<String>)
    ensures
        opt_view(r) == phonetic_of(opt_view(*p)),
{
    match p {
        None => None,
        Some(raw) => {
            let c = chars_of(raw.as_str());
            let t = trim_chars(&c);
            if t.len() == 0 {
                None
            } else if t[0] == '/' {
                Some(string_of(&t))
            } else {
                let mut v: Vec<char> = Vec::new();
                v.push('/');
                let mut k: usize = 0;
                while k < t.len()
                    invariant
                        k <= t.len(),
                        v@ == seq!['/'] + t@.subrange(0, k as int),
                    decreases t.len() - k,
                {
                    v.push(t[k]);
                    assert(t@.subrange(0, k + 1) =~= t@.subrange(0, k as int).push(t@[k as int]));
                    k += 1;
                }
                v.push('/');
                assert(t@.subrange(0, k as int) =~= t@);
                assert(v@ =~= seq!['/'] + t@ + seq!['/']);
                Some(string_of(&v))
            }
        },
    }
}

fn rank(frq: Option<i64>, bnc: Option<i64>) -> (r: Option<i64>)
    ensures
        r == rank_of(frq, bnc),
{
    match frq {
        Some(f) if f > 0 => return frq,
        _ => {},
    }
    match bnc {
        Some(b) if b > 0 => bnc,
        _ => None,
    }
}

fn pair_senses(en: &Vec<Vec<char>>, zh: &Vec<Vec<char>>) -> (r: Vec<(String, Option<String>)>)
    ensures
        r@.map_values(|s: (String, Option<String>)| (s.0@, opt_view(s.1))) == senses_of(
            en@.map_values(|l: Vec<char>| l@),
            zh@.map_values(|l: Vec<char>| l@),
        ),
{
    let ghost ev = en@.map_values(|l: Vec<char>| l@);
    let ghost zv = zh@.map_values(|l: Vec<char>| l@);
    let mut out: Vec<(String, Option<String>)> = Vec::new();
    if en.len() == zh.len() && en.len() > 1 {
        let mut i: usize = 0;
        while i < en.len()
            invariant
                en.len() == zh.len(),
                i <= en.len(),
                ev == en@.map_values(|l: Vec<char>| l@),
                zv == zh@.map_values(|l: Vec<char>| l@),
                out@.len() == i,
                out@.map_values(|s: (String, Option<String>)| (s.0@, opt_view(s.1))) =~= Seq::new(
                    i as nat,
                    |k: int| (ev[k], Some(zv[k])),
                ),
            decreases en.len() - i,
        {
            let e = string_of(&en[i]);
            let z = string_of(&zh[i]);
            assert(ev[i as int] == en@[i as int]@);
            assert(zv[i as int] == zh@[i as int]@);
            let ghost before = out@;
            out.push((e, Some(z)));
            assert forall|k: int| 0 <= k < i + 1 implies (#[trigger] out@[k].0@, opt_view(out@[k].1)) == (
                ev[k],
                Some(zv[k]),
            ) by {
                if k < i {
                    assert(out@[k] == before[k]);
                    assert(before.map_values(|s: (String, Option<String>)| (s.0@, opt_view(s.1)))[k] == (
                        ev[k],
                        Some(zv[k]),
                    ));
                }
            }
            assert(out@.map_values(|s: (String, Option<String>)| (s.0@, opt_view(s.1))) =~= Seq::new(
                (i + 1) as nat,
                |k: int| (ev[k], Some(zv[k])),
            ));
            i += 1;
        }
        out
    } else {
        let e = join_with_newlines(en);
        let z = if zh.len() > 0 {
            Some(join_with_newlines(zh))
        } else {
            None
        };
        out.push((e, z));
        assert(out@.map_values(|s: (String, Option<String>)| (s.0@, opt_view(s.1))) =~= senses_of(ev, zv));
        out
    }
}

fn colon_index(t: &Vec<char>) -> (r: Option<usize>)
    ensures
        match r {
            Some(k) => colon_at(t@) == Some(k as int) && k < t@.len(),
            None => colon_at(t@) is None,
        },
{
    let n = t.len();
    let mut k: usize = 0;
    while k < n
        invariant
            k <= n == t@.len(),
            colon_at(t@) == crate::scan::first_from(k as int, n as int, |j: int| t@[j] == ':'),
        decreases n - k,
    {
        if t[k] == ':' {
            return Some(k);
        }
        k += 1;
    }
    None
}

fn exchange_forms(exchange: &Option<String>, word: &String) -> (r: Vec<String>)
    ensures
        r@.map_values(|f: String| f@) == match *exchange {
            None => Seq::empty(),
            Some(x) => forms_of(split_on(x@, '/'), split_on(x@, '/').len() as int, word@),
        },
{
    let mut out: Vec<String> = Vec::new();
    let x = match exchange {
        None => {
            assert(out@.map_values(|f: String| f@) =~= Seq::<Seq<char>>::empty());
            return out;
        },
        Some(x) => x,
    };
    let c = chars_of(x.as_str());
    let mut tokens: Vec<Vec<char>> = Vec::new();
    let mut cur: Vec<char> = Vec::new();
    let mut i: usize = 0;
    assert(c@.subrange(0, 0) =~= Seq::<char>::empty());
    assert(tokens@.map_values(|l: Vec<char>| l@).push(cur@) =~= split_on(c@.subrange(0, 0), '/'));
    while i < c.len()
        invariant
            i <= c.len(),
            tokens@.map_values(|l: Vec<char>| l@).push(cur@) == split_on(c@.subrange(0, i as int), '/'),
        decreases c.len() - i,
    {
        let ghost segs = split_on(c@.subrange(0, i as int), '/');
        assert(c@.subrange(0, i + 1).drop_last() =~= c@.subrange(0, i as int));
        let ch = c[i];
        if ch == '/' {
            let done = cur;
            tokens.push(done);
            cur = Vec::new();
            assert(tokens@.map_values(|l: Vec<char>| l@).push(cur@) =~= segs.push(Seq::<char>::empty()));
        } else {
            cur.push(ch);
            assert(tokens@.map_values(|l: Vec<char>| l@).push(cur@) =~= segs.update(
                segs.len() - 1,
                segs.last().push(ch),
            ));
        }
        i += 1;
    }
    assert(c@.subrange(0, i as int) =~= x@);
    tokens.push(cur);
    let ghost toks = tokens@.map_values(|l: Vec<char>| l@);
    assert(toks == split_on(x@, '/'));
    let mut j: usize = 0;
    while j < tokens.len()
        invariant
            j <= tokens.len(),
            toks == tokens@.map_values(|l: Vec<char>| l@),
            out@.map_values(|f: String| f@) == forms_of(toks, j as int, word@),
        decreases tokens.len() - j,
    {
        let t = &tokens[j];
        let ghost before = out@;
        match colon_index(t) {
            None => {},
            Some(k) => {
                assert(k < t.len());
                let rest = crate::text::slice_chars(t, k + 1, t.len());
                let rest_s = string_of(&rest);
                let f = normalize_word(rest_s.as_str());
                let fc = chars_of(f.as_str());
                if fc.len() > 0 && f != *word {
                    out.push(f);
                    assert(out@.map_values(|f: String| f@) =~= before.map_values(|f: String| f@).push(
                        normalized(toks[j as int].subrange(k + 1, toks[j as int].len() as int)),
                    ));
                }
            },
        }
        j += 1;
    }
    out
}

/// Some piece holds a character that is not white space.
spec fn any_nonblank(segs: Seq<Seq<char>>) -> bool {
    exists|k: int| 0 <= k < segs.len() && nonblank(#[trigger] segs[k])
}

proof fn lemma_nonblank_push(x: Seq<char>, c: char)
    ensures
        nonblank(x.push(c)) <==> (nonblank(x) || !whitespace(c)),
{
    if nonblank(x) {
        let p = choose|p: int| 0 <= p < x.len() && !whitespace(#[trigger] x[p]);
        assert(x.push(c)[p] == x[p]);
    }
    if !whitespace(c) {
        assert(x.push(c)[x.len() as int] == c);
    }
    if nonblank(x.push(c)) {
        let p = choose|p: int| 0 <= p < x.push(c).len() && !whitespace(#[trigger] x.push(c)[p]);
        if p < x.len() {
            assert(x[p] == x.push(c)[p]);
        }
    }
}

/// Splitting at a white-space separator keeps exactly the non-blank characters:
/// some piece is non-blank exactly when the text is.
proof fn lemma_split_nonblank(s: Seq<char>, sep: char)
    requires
        whitespace(sep),
    ensures
        any_nonblank(split_on(s, sep)) <==> nonblank(s),
    decreases s.len(),
{
    if s.len() == 0 {
        assert(!nonblank(Seq::<char>::empty()));
        assert(split_on(s, sep)[0] == Seq::<char>::empty());
    } else {
        let x = s.drop_last();
        let c = s.last();
        lemma_split_nonblank(x, sep);
        lemma_split_on_nonempty(x, sep);
        lemma_nonblank_push(x, c);
        assert(s =~= x.push(c));
        let prev = split_on(x, sep);
        let segs = split_on(s, sep);
        if c == sep {
            assert(segs == prev.push(Seq::empty()));
            assert(!nonblank(Seq::<char>::empty()));
            if any_nonblank(segs) {
                let k = choose|k: int| 0 <= k < segs.len() && nonblank(#[trigger] segs[k]);
                assert(k < prev.len());
                assert(segs[k] == prev[k]);
            }
            if any_nonblank(prev) {
                let k = choose|k: int| 0 <= k < prev.len() && nonblank(#[trigger] prev[k]);
                assert(segs[k] == prev[k]);
            }
        } else {
            let l = prev.len() - 1;
            assert(segs == prev.update(l, prev[l].push(c)));
            lemma_nonblank_push(prev[l], c);
            if any_nonblank(segs) {
                let k = choose|k: int| 0 <= k < segs.len() && nonblank(#[trigger] segs[k]);
                if k != l {
                    assert(segs[k] == prev[k]);
                }
            }
            if any_nonblank(prev) {
                let k = choose|k: int| 0 <= k < prev.len() && nonblank(#[trigger] prev[k]);
                if k != l {
                    assert(segs[k] == prev[k]);
                }
                assert(nonblank(segs[k]));
            }
            if !whitespace(c) {
                assert(nonblank(segs[l]));
            }
        }
    }
}

proof fn lemma_kept_lines_nonempty(segs: Seq<Seq<char>>, n: int)
    requires
        0 <= n <= segs.len(),
    ensures
        kept_lines(segs, n).len() > 0 <==> exists|k: int| 0 <= k < n && nonblank(#[trigger] segs[k]),
    decreases n,
{
    if n > 0 {
        lemma_kept_lines_nonempty(segs, n - 1);
        lemma_trim_nonempty(segs[n - 1]);
        if exists|k: int| 0 <= k < n && nonblank(#[trigger] segs[k]) {
            let k = choose|k: int| 0 <= k < n && nonblank(#[trigger] segs[k]);
            if k < n - 1 {
                assert(exists|k2: int| 0 <= k2 < n - 1 && nonblank(#[trigger] segs[k2]));
            }
        }
    }
}

/// The field has text: it is present and holds a character that is not white space.
pub open spec fn has_text(v: Option<String>) -> bool {
    v matches Some(s) && nonblank(s@)
}

proof fn lemma_field_lines_nonempty(v: Option<String>)
    ensures
        field_lines(opt_view(v)).len() > 0 <==> has_text(v),
{
    if let Some(s) = v {
        let segs = split_on(s@, '\n');
        lemma_split_nonblank(s@, '\n');
        lemma_kept_lines_nonempty(segs, segs.len() as int);
    }
}

/// Which rows are imported: exactly those whose word, trimmed, is non-empty and
/// normalises to a non-empty head word, and whose English definition or Chinese
/// translation holds some text; a row with only a translation is imported too.
pub proof fn lemma_rows_with_text_are_kept(row: EcdictRow)
    ensures
        ecdict_record(row) is Some <==> (row.word matches Some(w) && trim(w@).len() > 0 && normalized(trim(w@)).len()
            > 0 && (has_text(row.definition) || has_text(row.translation))),
{
    lemma_field_lines_nonempty(row.definition);
    lemma_field_lines_nonempty(row.translation);
}

/// Maps one `stardict` row to the word, senses and forms to import, or `None`
/// when the row is to be skipped (see `ecdict_record`).
pub fn map_ecdict_row(row: &EcdictRow) -> (r: Option<EcdictRecord>)
    ensures
        match r {
            Some(rec) => ecdict_record(*row) == Some(record_view(rec)),
            None => ecdict_record(*row) is None,
        },
{
    let raw = match &row.word {
        Some(w) => {
            let c = chars_of(w.as_str());
            trim_chars(&c)
        },
        None => Vec::new(),
    };
    if raw.len() == 0 {
        return None;
    }
    let display = string_of(&raw);
    let word = normalize_word(display.as_str());
    let wc = chars_of(word.as_str());
    if wc.len() == 0 {
        return None;
    }
    let zh = split_lines(&row.translation);
    let en = split_lines(&row.definition);
    if en.len() == 0 && zh.len() == 0 {
        return None;
    }
    let phonetic = phonetic_text(&row.phonetic);
    let frequency_rank = rank(row.frq, row.bnc);
    let senses = pair_senses(&en, &zh);
    let forms = exchange_forms(&row.exchange, &word);
    Some(EcdictRecord { word, display, phonetic, frequency_rank, senses, forms })
}

} // verus!
