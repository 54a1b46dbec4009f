//! Prompt construction and answer grading.

use vstd::prelude::*;
use crate::dictionary::engine::{normalize_word, normalized};
use crate::dictionary::model::{Sense, WordEntry};
use crate::domain::{ExampleId, SenseId};
use crate::memory::model::{quality_index, RecallQuality};
use crate::scan::{first_from, lemma_first_from};
use crate::text::{
    alphanumeric, char_lowercase, chars_of, is_alphanumeric, same_lowercase, str_equals,
    str_lowercase, string_of, to_lowercase, trim, trim_chars,
};
use super::model::PromptKind;

verus! {

// ── cloze ──────────────────────────────────────────────────────────

/// The mark that replaces the word in a cloze.
pub open spec fn blank_mark() -> Seq<char> {
    seq!['_', '_', '_', '_', '_', '_']
}

/// The word (already lower-cased) matches the text at `start`, character by
/// character under `char::to_lowercase`.
pub open spec fn matches_at(t: Seq<char>, w: Seq<char>, start: int) -> bool {
    forall|j: int| 0 <= j < w.len() ==> char_lowercase(t[start + j]) == char_lowercase(#[trigger] w[j])
}

/// The span `start..end` is bounded by non-alphanumeric characters or the text ends.
pub open spec fn at_word_boundary(t: Seq<char>, start: int, end: int) -> bool {
    (start == 0 || !alphanumeric(t[start - 1])) && (end == t.len() || !alphanumeric(t[end]))
}

/// The text from `start` on with every whole-word occurrence of `w` blanked,
/// and whether any occurrence was found there.
pub open spec fn blank_from(t: Seq<char>, w: Seq<char>, start: int) -> (Seq<char>, bool)
    decreases t.len() - start,
{
    if start < 0 || start >= t.len() || w.len() == 0 {
        (Seq::empty(), false)
    } else if w.len() > t.len() - start {
        (t.subrange(start, t.len() as int), false)
    } else if at_word_boundary(t, start, start + w.len()) && matches_at(t, w, start) {
        let rest = blank_from(t, w, start + w.len());
        (blank_mark() + rest.0, true)
    } else {
        let rest = blank_from(t, w, start + 1);
        (seq![t[start]] + rest.0, rest.1)
    }
}

/// The cloze of `text` for `word`: every case-insensitive whole-word occurrence
/// replaced by the blank mark, the rest unchanged; `None` when there is none.
pub open spec fn cloze(text: Seq<char>, word: Seq<char>) -> Option<Seq<char>> {
    let w = str_lowercase(word);
    if w.len() == 0 || text.len() < w.len() {
        None
    } else {
        let r = blank_from(text, w, 0);
        if r.1 {
            Some(r.0)
        } else {
            None
        }
    }
}

fn matches_here(t: &Vec<char>, w: &Vec<char>, start: usize) -> (r: bool)
    requires
        start + w.len() <= t.len(),
    ensures
        r == matches_at(t@, w@, start as int),
{
    let mut j: usize = 0;
    while j < w.len()
        invariant
            j <= w.len(),
            start + w.len() <= t.len(),
            forall|k: int| 0 <= k < j ==> char_lowercase(t@[start + k]) == char_lowercase(#[trigger] w@[k]),
        decreases w.len() - j,
    {
        if !same_lowercase(t[start + j], w[j]) {
            return false;
        }
        j += 1;
    }
    true
}

fn push_blank(out: &mut Vec<char>)
    ensures
        final(out)@ == old(out)@ + blank_mark(),
{
    let mut k: usize = 0;
    let ghost base = out@;
    while k < 6
        invariant
            k <= 6,
            out@ == base + blank_mark().subrange(0, k as int),
        decreases 6 - k,
    {
        out.push('_');
        proof {
            assert(blank_mark().subrange(0, k + 1) =~= blank_mark().subrange(0, k as int).push('_'));
        }
        k += 1;
    }
    assert(blank_mark().subrange(0, 6) =~= blank_mark());
}

/// Replaces every case-insensitive whole-word occurrence of `word` in `text` with
/// "______", leaving the rest of the text as it was; `None` when there is none.
pub fn blank_word(text: &str, word: &str) -> (r: Option<String>)
    ensures
        match r {
            Some(s) => cloze(text@, word@) == Some(s@),
            None => cloze(text@, word@) is None,
        },
{
    let lower = to_lowercase(word);
    let w = chars_of(lower.as_str());
    if w.len() == 0 {
        return None;
    }
    let t = chars_of(text);
    if t.len() < w.len() {
        return None;
    }
    let ghost wl = w@;
    let ghost tl = t@;
    let mut out: Vec<char> = Vec::new();
    let mut start: usize = 0;
    let mut found = false;
    assert(blank_from(tl, wl, 0) == (out@ + blank_from(tl, wl, 0).0, found || blank_from(tl, wl, 0).1)) by {
        assert(out@ + blank_from(tl, wl, 0).0 =~= blank_from(tl, wl, 0).0);
    }
    while start < t.len()
        invariant
            wl == w@,
            tl == t@,
            t.len() <= isize::MAX,
            w.len() > 0,
            start <= t.len(),
            blank_from(tl, wl, 0) == (out@ + blank_from(tl, wl, start as int).0, found || blank_from(
                tl,
                wl,
                start as int,
            ).1),
        decreases t.len() - start,
    {
        let ghost out0 = out@;
        let ghost found0 = found;
        if w.len() > t.len() - start {
            let tail = crate::text::slice_chars(&t, start, t.len());
            let mut k: usize = 0;
            while k < tail.len()
                invariant
                    k <= tail.len(),
                    out@ == out0 + tail@.subrange(0, k as int),
                decreases tail.len() - k,
            {
                out.push(tail[k]);
                proof {
                    assert(tail@.subrange(0, k + 1) =~= tail@.subrange(0, k as int).push(tail@[k as int]));
                }
                k += 1;
            }
            proof {
                assert(tail@.subrange(0, k as int) =~= tail@);
                assert(blank_from(tl, wl, t.len() as int).0 =~= Seq::<char>::empty());
                assert(out@ + blank_from(tl, wl, t.len() as int).0 =~= out@);
            }
            start = t.len();
        } else {
            let end = start + w.len();
            let starts_at_boundary = start == 0 || !is_alphanumeric(t[start - 1]);
            let ends_at_boundary = end == t.len() || !is_alphanumeric(t[end]);
            if starts_at_boundary && ends_at_boundary && matches_here(&t, &w, start) {
                push_blank(&mut out);
                found = true;
                proof {
                    assert(out0 + (blank_mark() + blank_from(tl, wl, end as int).0) =~= out@ + blank_from(
                        tl,
                        wl,
                        end as int,
                    ).0);
                }
                start = end;
            } else {
                out.push(t[start]);
                proof {
                    assert(out0 + (seq![tl[start as int]] + blank_from(tl, wl, start + 1).0) =~= out@
                        + blank_from(tl, wl, start + 1).0);
                }
                start += 1;
            }
        }
    }
    proof {
        assert(blank_from(tl, wl, start as int).0 =~= Seq::<char>::empty());
        assert(out@ + blank_from(tl, wl, start as int).0 =~= out@);
    }
    if found {
        Some(string_of(&out))
    } else {
        None
    }
}

/// Where each character of `blank_from(t, w, start).0` comes from: the index in
/// `t` of a character that was kept, or -1 for a character of a blank mark.
spec fn kept_from(t: Seq<char>, w: Seq<char>, start: int) -> Seq<int>
    decreases t.len() - start,
{
    if start < 0 || start >= t.len() || w.len() == 0 {
        Seq::empty()
    } else if w.len() > t.len() - start {
        Seq::new((t.len() - start) as nat, |i: int| start + i)
    } else if at_word_boundary(t, start, start + w.len()) && matches_at(t, w, start) {
        seq![-1int, -1int, -1int, -1int, -1int, -1int] + kept_from(t, w, start + w.len())
    } else {
        seq![start] + kept_from(t, w, start + 1)
    }
}

/// What the origins `k` of an output `o` of the scan from `s` say: kept
/// characters are copied in order, blanks are '_', a kept position is no
/// whole-word occurrence, and a blank is bounded by non-alphanumeric characters.
spec fn kept_ok(t: Seq<char>, w: Seq<char>, s: int, o: Seq<char>, k: Seq<int>) -> bool {
    &&& k.len() == o.len()
    &&& forall|i: int| 0 <= i < k.len() && #[trigger] k[i] >= 0 ==> s <= k[i] < t.len() && o[i] == t[k[i]]
    &&& forall|i: int| 0 <= i < k.len() && #[trigger] k[i] < 0 ==> o[i] == '_'
    &&& forall|i: int|
        #![trigger k[i], k[i + 1]]
        0 <= i && i + 1 < k.len() && k[i] >= 0 && k[i + 1] >= 0 ==> k[i + 1] == k[i] + 1
    &&& forall|i: int|
        0 <= i < k.len() && #[trigger] k[i] >= 0 && k[i] + w.len() <= t.len() ==> !(at_word_boundary(
            t,
            k[i],
            k[i] + w.len(),
        ) && matches_at(t, w, k[i]))
    &&& forall|i: int|
        #![trigger k[i], k[i + 1]]
        0 <= i && i + 1 < k.len() && k[i] < 0 && k[i + 1] >= 0 ==> !alphanumeric(t[k[i + 1]])
    &&& forall|i: int|
        #![trigger k[i], k[i + 1]]
        0 <= i && i + 1 < k.len() && k[i] >= 0 && k[i + 1] < 0 ==> !alphanumeric(t[k[i]])
    &&& (k.len() > 0 && k[0] >= 0 ==> k[0] == s)
    &&& (k.len() > 0 && k[k.len() - 1] >= 0 ==> k[k.len() - 1] == t.len() - 1)
}

proof fn lemma_kept_from(t: Seq<char>, w: Seq<char>, s: int)
    requires
        0 <= s,
        w.len() > 0,
    ensures
        kept_ok(t, w, s, blank_from(t, w, s).0, kept_from(t, w, s)),
    decreases t.len() - s,
{
    let o = blank_from(t, w, s).0;
    let k = kept_from(t, w, s);
    if s >= t.len() {
    } else if w.len() > t.len() - s {
        assert(o =~= t.subrange(s, t.len() as int));
    } else if at_word_boundary(t, s, s + w.len()) && matches_at(t, w, s) {
        let e = s + w.len();
        lemma_kept_from(t, w, e);
        let o1 = blank_from(t, w, e).0;
        let k1 = kept_from(t, w, e);
        let b = seq![-1int, -1int, -1int, -1int, -1int, -1int];
        assert(k == b + k1);
        assert(o == blank_mark() + o1);
        assert forall|i: int| 0 <= i < k.len() && #[trigger] k[i] >= 0 implies s <= k[i] < t.len() && o[i]
            == t[k[i]] by {
            assert(i >= 6);
            assert(k[i] == k1[i - 6]);
        }
        assert forall|i: int| 0 <= i < k.len() && #[trigger] k[i] < 0 implies o[i] == '_' by {
            if i >= 6 {
                assert(k[i] == k1[i - 6]);
            }
        }
        assert forall|i: int|
            #![trigger k[i], k[i + 1]]
            0 <= i && i + 1 < k.len() && k[i] >= 0 && k[i + 1] >= 0 implies k[i + 1] == k[i] + 1 by {
            assert(i >= 6);
            assert(k[i] == k1[i - 6] && k[i + 1] == k1[(i - 6) + 1]);
        }
        assert forall|i: int|
            0 <= i < k.len() && #[trigger] k[i] >= 0 && k[i] + w.len() <= t.len() implies !(at_word_boundary(
                t,
                k[i],
                k[i] + w.len(),
            ) && matches_at(t, w, k[i])) by {
            assert(i >= 6);
            assert(k[i] == k1[i - 6]);
        }
        assert forall|i: int|
            #![trigger k[i], k[i + 1]]
            0 <= i && i + 1 < k.len() && k[i] < 0 && k[i + 1] >= 0 implies !alphanumeric(t[k[i + 1]]) by {
            if i >= 6 {
                assert(k[i] == k1[i - 6] && k[i + 1] == k1[(i - 6) + 1]);
            } else {
                assert(i == 5);
                assert(k[i + 1] == k1[0]);
                assert(k1[0] == e);
                assert(at_word_boundary(t, s, e));
            }
        }
        assert forall|i: int|
            #![trigger k[i], k[i + 1]]
            0 <= i && i + 1 < k.len() && k[i] >= 0 && k[i + 1] < 0 implies !alphanumeric(t[k[i]]) by {
            assert(i >= 6);
            assert(k[i] == k1[i - 6] && k[i + 1] == k1[(i - 6) + 1]);
        }
        if k1.len() > 0 {
            assert(k[k.len() - 1] == k1[k1.len() - 1]);
        }
    } else {
        lemma_kept_from(t, w, s + 1);
        let o1 = blank_from(t, w, s + 1).0;
        let k1 = kept_from(t, w, s + 1);
        assert(k == seq![s] + k1);
        assert(o == seq![t[s]] + o1);
        assert forall|i: int| 0 <= i < k.len() && #[trigger] k[i] >= 0 implies s <= k[i] < t.len() && o[i]
            == t[k[i]] by {
            if i >= 1 {
                assert(k[i] == k1[i - 1]);
            }
        }
        assert forall|i: int| 0 <= i < k.len() && #[trigger] k[i] < 0 implies o[i] == '_' by {
            if i >= 1 {
                assert(k[i] == k1[i - 1]);
            }
        }
        assert forall|i: int|
            #![trigger k[i], k[i + 1]]
            0 <= i && i + 1 < k.len() && k[i] >= 0 && k[i + 1] >= 0 implies k[i + 1] == k[i] + 1 by {
            if i >= 1 {
                assert(k[i] == k1[i - 1] && k[i + 1] == k1[(i - 1) + 1]);
            } else {
                assert(k[i + 1] == k1[0]);
                assert(k1[0] == s + 1);
            }
        }
        assert forall|i: int|
            0 <= i < k.len() && #[trigger] k[i] >= 0 && k[i] + w.len() <= t.len() implies !(at_word_boundary(
                t,
                k[i],
                k[i] + w.len(),
            ) && matches_at(t, w, k[i])) by {
            if i >= 1 {
                assert(k[i] == k1[i - 1]);
            }
        }
        assert forall|i: int|
            #![trigger k[i], k[i + 1]]
            0 <= i && i + 1 < k.len() && k[i] < 0 && k[i + 1] >= 0 implies !alphanumeric(t[k[i + 1]]) by {
            assert(i >= 1);
            assert(k[i] == k1[i - 1] && k[i + 1] == k1[(i - 1) + 1]);
        }
        assert forall|i: int|
            #![trigger k[i], k[i + 1]]
            0 <= i && i + 1 < k.len() && k[i] >= 0 && k[i + 1] < 0 implies !alphanumeric(t[k[i]]) by {
            if i >= 1 {
                assert(k[i] == k1[i - 1] && k[i + 1] == k1[(i - 1) + 1]);
            } else {
                assert(k[i + 1] == k1[0]);
                // The next scan position starts a blank, whose left edge is a boundary.
                assert(k1[0] < 0);
                assert(s + 1 + w.len() <= t.len());
                assert(at_word_boundary(t, s + 1, s + 1 + w.len()));
            }
        }
        if k1.len() > 0 {
            assert(k[k.len() - 1] == k1[k1.len() - 1]);
        }
    }
}

/// Some scan position from `start` on is a whole-word occurrence whenever the
/// scan reports one.
proof fn lemma_found_occurrence(t: Seq<char>, w: Seq<char>, start: int)
    requires
        blank_from(t, w, start).1,
    ensures
        exists|p: int|
            start <= p && p + w.len() <= t.len() && #[trigger] at_word_boundary(t, p, p + w.len())
                && matches_at(t, w, p),
    decreases t.len() - start,
{
    if start < 0 || start >= t.len() || w.len() == 0 || w.len() > t.len() - start {
    } else if at_word_boundary(t, start, start + w.len()) && matches_at(t, w, start) {
    } else {
        lemma_found_occurrence(t, w, start + 1);
    }
}

/// Consecutive kept origins run in step from `p` for `m` characters.
proof fn lemma_kept_run(t: Seq<char>, w: Seq<char>, o: Seq<char>, k: Seq<int>, p: int, m: int)
    requires
        kept_ok(t, w, 0, o, k),
        0 <= p,
        0 <= m,
        p + m <= k.len(),
        forall|j: int| 0 <= j < m ==> #[trigger] k[p + j] >= 0,
    ensures
        forall|j: int| 0 <= j < m ==> #[trigger] k[p + j] == k[p] + j,
    decreases m,
{
    if m > 1 {
        lemma_kept_run(t, w, o, k, p, m - 1);
        assert(k[p + (m - 2)] >= 0 && k[p + (m - 1)] >= 0);
        assert(k[(p + (m - 2)) + 1] == k[p + (m - 1)]);
    }
}

/// Blanking a second time finds nothing: the text that `cloze` gives back holds
/// no whole-word occurrence of the word. This needs the blank mark's '_' to be
/// no alphanumeric character, and every character that lower-cases like a
/// character of the lower-cased word to be alphanumeric; a word such as "İ",
/// which lower-cases to "i" and the non-alphanumeric U+0307, does not meet it.
pub proof fn lemma_blanking_again_finds_nothing(text: Seq<char>, word: Seq<char>)
    requires
        cloze(text, word) is Some,
        !alphanumeric('_'),
        forall|c: char, j: int|
            0 <= j < str_lowercase(word).len() && #[trigger] char_lowercase(c) == char_lowercase(
                #[trigger] str_lowercase(word)[j],
            ) ==> alphanumeric(c),
    ensures
        cloze(cloze(text, word).unwrap(), word) is None,
{
    let w = str_lowercase(word);
    let n = w.len() as int;
    let t = text;
    let r = cloze(text, word).unwrap();
    lemma_kept_from(t, w, 0);
    let k = kept_from(t, w, 0);
    assert(r == blank_from(t, w, 0).0);
    if !(w.len() == 0 || r.len() < w.len()) && blank_from(r, w, 0).1 {
        lemma_found_occurrence(r, w, 0);
        let p = choose|p: int|
            0 <= p && p + w.len() <= r.len() && #[trigger] at_word_boundary(r, p, p + w.len())
                && matches_at(r, w, p);
        // Every character of the occurrence was kept: a blank's '_' matches no character of the word.
        assert forall|j: int| 0 <= j < n implies #[trigger] k[p + j] >= 0 by {
            assert(char_lowercase(r[p + j]) == char_lowercase(w[j]));
            if k[p + j] < 0 {
                assert(r[p + j] == '_');
            }
        }
        lemma_kept_run(t, w, r, k, p, n);
        let q = k[p];
        assert(k[p + 0] == q);
        assert(k[p + (n - 1)] == q + n - 1);
        assert forall|j: int| 0 <= j < n implies char_lowercase(t[q + j]) == char_lowercase(#[trigger] w[j]) by {
            assert(k[p + j] == q + j);
            assert(r[p + j] == t[k[p + j]]);
        }
        assert(matches_at(t, w, q));
        assert(char_lowercase(t[q]) == char_lowercase(w[0]));
        assert(alphanumeric(t[q]));
        assert(char_lowercase(t[q + (n - 1)]) == char_lowercase(w[n - 1]));
        assert(alphanumeric(t[q + (n - 1)]));
        // The left edge in `t`.
        if p == 0 {
            assert(q == 0);
        } else {
            if k[p - 1] >= 0 {
                assert(k[(p - 1) + 1] == k[p]);
                assert(k[p - 1] == q - 1);
                assert(r[p - 1] == t[q - 1]);
            } else {
                assert(k[(p - 1) + 1] == k[p]);
            }
        }
        // The right edge in `t`.
        if p + n == r.len() {
            assert(k[k.len() - 1] == q + n - 1);
        } else {
            if k[p + n] >= 0 {
                assert(k[(p + n - 1) + 1] == k[p + n]);
                assert(k[p + n - 1] == q + n - 1);
                assert(k[p + n] == q + n);
                assert(r[p + n] == t[q + n]);
            } else {
                assert(k[(p + n - 1) + 1] == k[p + n]);
                assert(k[p + n - 1] == k[p + (n - 1)]);
            }
        }
        assert(at_word_boundary(t, q, q + n));
    }
}

// ── hints and grading ──────────────────────────────────────────────

/// The first character followed by one '_' for every further character.
pub open spec fn mask(w: Seq<char>) -> Seq<char> {
    if w.len() == 0 {
        Seq::empty()
    } else {
        seq![w[0]] + Seq::new((w.len() - 1) as nat, |i: int| '_')
    }
}

/// First-letter mask hint: meticulous → m_________.
pub fn mask_hint(word: &str) -> (r: String)
    ensures
        r@ == mask(word@),
{
    let chars = chars_of(word);
    let mut out: Vec<char> = Vec::new();
    if chars.len() == 0 {
        return string_of(&out);
    }
    out.push(chars[0]);
    let mut i: usize = 1;
    while i < chars.len()
        invariant
            1 <= i <= chars.len(),
            out@ == seq![chars@[0]] + Seq::new((i - 1) as nat, |k: int| '_'),
        decreases chars.len() - i,
    {
        out.push('_');
        proof {
            assert(seq![chars@[0]] + Seq::new(i as nat, |k: int| '_') =~= (seq![chars@[0]] + Seq::new(
                (i - 1) as nat,
                |k: int| '_',
            )).push('_'));
        }
        i += 1;
    }
    string_of(&out)
}

/// The edit distance between `a[..i]` and `b[..j]` (insert, delete, substitute, each cost 1).
pub open spec fn lev(a: Seq<char>, b: Seq<char>, i: nat, j: nat) -> nat
    decreases i + j,
{
    if i == 0 {
        j
    } else if j == 0 {
        i
    } else {
        let del = lev(a, b, (i - 1) as nat, j) + 1;
        let ins = lev(a, b, i, (j - 1) as nat) + 1;
        let sub = lev(a, b, (i - 1) as nat, (j - 1) as nat) + if a[i - 1] == b[j - 1] {
            0nat
        } else {
            1nat
        };
        let m = if del <= ins {
            del
        } else {
            ins
        };
        if m <= sub {
            m
        } else {
            sub
        }
    }
}

/// The edit distance of two whole character sequences.
pub open spec fn edit_dist(a: Seq<char>, b: Seq<char>) -> nat {
    lev(a, b, a.len(), b.len())
}

/// The distance of prefixes never exceeds the longer prefix.
proof fn lemma_lev_bound(a: Seq<char>, b: Seq<char>, i: nat, j: nat)
    ensures
        lev(a, b, i, j) <= if i >= j {
            i
        } else {
            j
        },
    decreases i + j,
{
    if i > 0 && j > 0 {
        lemma_lev_bound(a, b, (i - 1) as nat, (j - 1) as nat);
    }
}

/// Swapping the two strings swaps the roles of deletion and insertion.
proof fn lemma_lev_symmetric(a: Seq<char>, b: Seq<char>, i: nat, j: nat)
    ensures
        lev(a, b, i, j) == lev(b, a, j, i),
    decreases i + j,
{
    if i > 0 && j > 0 {
        lemma_lev_symmetric(a, b, (i - 1) as nat, j);
        lemma_lev_symmetric(a, b, i, (j - 1) as nat);
        lemma_lev_symmetric(a, b, (i - 1) as nat, (j - 1) as nat);
    }
}

/// The distance of prefixes is at least the difference of their lengths.
proof fn lemma_lev_lower(a: Seq<char>, b: Seq<char>, i: nat, j: nat)
    ensures
        lev(a, b, i, j) >= i - j,
        lev(a, b, i, j) >= j - i,
    decreases i + j,
{
    if i > 0 && j > 0 {
        lemma_lev_lower(a, b, (i - 1) as nat, j);
        lemma_lev_lower(a, b, i, (j - 1) as nat);
        lemma_lev_lower(a, b, (i - 1) as nat, (j - 1) as nat);
    }
}

/// The distance of prefixes is 0 exactly when the prefixes are equal.
proof fn lemma_lev_zero(a: Seq<char>, b: Seq<char>, i: nat, j: nat)
    requires
        i <= a.len(),
        j <= b.len(),
    ensures
        lev(a, b, i, j) == 0 <==> (i == j && a.subrange(0, i as int) == b.subrange(0, j as int)),
    decreases i + j,
{
    if i > 0 && j > 0 {
        lemma_lev_zero(a, b, (i - 1) as nat, (j - 1) as nat);
        lemma_lev_lower(a, b, (i - 1) as nat, j);
        lemma_lev_lower(a, b, i, (j - 1) as nat);
        let pa = a.subrange(0, i as int);
        let pb = b.subrange(0, j as int);
        assert(pa.drop_last() =~= a.subrange(0, i - 1));
        assert(pb.drop_last() =~= b.subrange(0, j - 1));
        if i == j && pa == pb {
            assert(a[i - 1] == pa[i - 1]);
            assert(b[j - 1] == pb[j - 1]);
            assert(a.subrange(0, i - 1) == b.subrange(0, j - 1));
        }
        if lev(a, b, i, j) == 0 {
            assert(pa =~= a.subrange(0, i - 1).push(a[i - 1]));
            assert(pb =~= b.subrange(0, j - 1).push(b[j - 1]));
        }
    } else if i == 0 && j == 0 {
        assert(a.subrange(0, 0) =~= b.subrange(0, 0));
    }
}

/// Edit distance is symmetric.
pub proof fn lemma_edit_dist_symmetric(a: Seq<char>, b: Seq<char>)
    ensures
        edit_dist(a, b) == edit_dist(b, a),
{
    lemma_lev_symmetric(a, b, a.len(), b.len());
}

/// Edit distance is 0 exactly for equal strings.
pub proof fn lemma_edit_dist_zero(a: Seq<char>, b: Seq<char>)
    ensures
        edit_dist(a, b) == 0 <==> a == b,
{
    lemma_lev_zero(a, b, a.len(), b.len());
    assert(a.subrange(0, a.len() as int) =~= a);
    assert(b.subrange(0, b.len() as int) =~= b);
}

/// Edit distance lies between the difference of the lengths and the longer length.
pub proof fn lemma_edit_dist_bounds(a: Seq<char>, b: Seq<char>)
    ensures
        a.len() - b.len() <= edit_dist(a, b),
        b.len() - a.len() <= edit_dist(a, b),
        edit_dist(a, b) <= if a.len() >= b.len() {
            a.len()
        } else {
            b.len()
        },
{
    lemma_lev_lower(a, b, a.len(), b.len());
    lemma_lev_bound(a, b, a.len(), b.len());
}

/// Classic edit distance over characters (dynamic programming by rows).
pub fn edit_distance(a: &str, b: &str) -> (r: usize)
    ensures
        r == edit_dist(a@, b@),
{
    let a = chars_of(a);
    let b = chars_of(b);
    let blen = b.len();
    let alen = a.len();
    let mut prev: Vec<usize> = Vec::new();
    let mut j: usize = 0;
    while j < blen
        invariant
            j <= blen == b.len(),
            prev@.len() == j,
            forall|k: int| 0 <= k < j ==> prev@[k] == lev(a@, b@, 0, k as nat),
        decreases blen - j,
    {
        prev.push(j);
        j += 1;
    }
    prev.push(blen);
    let mut curr: Vec<usize> = Vec::new();
    let mut k: usize = 0;
    while k < blen
        invariant
            k <= blen,
            curr@.len() == k,
        decreases blen - k,
    {
        curr.push(0);
        k += 1;
    }
    curr.push(0);
    let mut i: usize = 1;
    while i <= alen
        invariant
            1 <= i <= alen + 1,
            alen == a.len(),
            alen <= isize::MAX,
            blen <= isize::MAX,
            blen == b.len(),
            prev@.len() == blen + 1,
            curr@.len() == blen + 1,
            forall|k: int| 0 <= k <= blen ==> prev@[k] == lev(a@, b@, (i - 1) as nat, k as nat),
        decreases alen + 1 - i,
    {
        curr.set(0, i);
        let mut j: usize = 1;
        while j <= blen
            invariant
                1 <= i <= alen,
                1 <= j <= blen + 1,
                alen == a.len(),
                alen <= isize::MAX,
                blen <= isize::MAX,
                blen == b.len(),
                prev@.len() == blen + 1,
                curr@.len() == blen + 1,
                forall|k: int| 0 <= k <= blen ==> prev@[k] == lev(a@, b@, (i - 1) as nat, k as nat),
                forall|k: int| 0 <= k < j ==> curr@[k] == lev(a@, b@, i as nat, k as nat),
            decreases blen + 1 - j,
        {
            proof {
                lemma_lev_bound(a@, b@, (i - 1) as nat, j as nat);
                lemma_lev_bound(a@, b@, i as nat, (j - 1) as nat);
                lemma_lev_bound(a@, b@, (i - 1) as nat, (j - 1) as nat);
            }
            let cost: usize = if a[i - 1] != b[j - 1] {
                1
            } else {
                0
            };
            let del = prev[j] + 1;
            let ins = curr[j - 1] + 1;
            let sub = prev[j - 1] + cost;
            let m = if del <= ins {
                del
            } else {
                ins
            };
            let v = if m <= sub {
                m
            } else {
                sub
            };
            curr.set(j, v);
            j += 1;
        }
        std::mem::swap(&mut prev, &mut curr);
        i += 1;
    }
    prev[blen]
}

/// The grading rule on normalised answers: exact match, or, for targets of five
/// characters or more, a length difference of at most one and an edit distance
/// of at most one. Empty answers or targets never count.
pub open spec fn graded_correct(a: Seq<char>, t: Seq<char>) -> bool {
    a.len() > 0 && t.len() > 0 && (a == t || (t.len() >= 5 && (a.len() - t.len() <= 1 && t.len()
        - a.len() <= 1) && edit_dist(a, t) <= 1))
}

/// Grading accepts exactly the non-empty answers that equal the target, or that
/// are one insertion, deletion or substitution away from a target of five or more
/// characters (a typo that keeps the length included).
pub proof fn lemma_grading_tolerates_one_typo(a: Seq<char>, t: Seq<char>)
    ensures
        graded_correct(a, t) <==> (a.len() > 0 && t.len() > 0 && (a == t || (t.len() >= 5 && edit_dist(a, t)
            <= 1))),
{
    lemma_edit_dist_bounds(a, t);
}

/// An answer is correct when it equals the target after normalisation, or when
/// the target has at least five characters and one typo separates them.
pub fn is_correct(answer: &str, target: &str) -> (r: bool)
    ensures
        r == graded_correct(normalized(answer@), normalized(target@)),
{
    let a = normalize_word(answer);
    let t = normalize_word(target);
    let a_len = chars_of(a.as_str()).len();
    let t_len = chars_of(t.as_str()).len();
    if a_len == 0 || t_len == 0 {
        return false;
    }
    if str_equals(a.as_str(), t.as_str()) {
        return true;
    }
    let close_in_length = if a_len >= t_len {
        a_len - t_len <= 1
    } else {
        t_len - a_len <= 1
    };
    t_len >= 5 && close_in_length && edit_distance(a.as_str(), t.as_str()) <= 1
}

/// The quality that hints and correctness give (see `quality_for`).
pub open spec fn quality_of(correct: bool, hints_used: u32) -> RecallQuality {
    if !correct {
        RecallQuality::Forgotten
    } else if hints_used == 0 {
        RecallQuality::Excellent
    } else if hints_used == 1 {
        RecallQuality::Good
    } else if hints_used == 2 {
        RecallQuality::Hard
    } else {
        RecallQuality::Poor
    }
}

/// Hints and correctness to quality: 0 hints Excellent, 1 Good, 2 Hard, 3 or
/// more Poor; a wrong answer or a give-up is Forgotten.
pub fn quality_for(correct: bool, hints_used: u32) -> (r: RecallQuality)
    ensures
        r == quality_of(correct, hints_used),
{
    if !correct {
        return RecallQuality::Forgotten;
    }
    match hints_used {
        0 => RecallQuality::Excellent,
        1 => RecallQuality::Good,
        2 => RecallQuality::Hard,
        _ => RecallQuality::Poor,
    }
}

/// More hints never give a better grade, and a correct answer always grades
/// better than a wrong one or a give-up.
pub proof fn lemma_hints_never_raise_quality(correct: bool, fewer: u32, more: u32)
    requires
        fewer <= more,
    ensures
        quality_index(quality_of(correct, more)) <= quality_index(quality_of(correct, fewer)),
        quality_index(quality_of(true, more)) > quality_index(quality_of(false, more)),
{
}

// ── prompts ────────────────────────────────────────────────────────

/// A prompt: its kind, text and where it came from (sense and example) for hints and records.
#[derive(Clone, Debug)]
pub struct Prompt {
    pub kind: PromptKind,
    pub text: String,
    pub sense_id: Option<SenseId>,
    pub example_id: Option<ExampleId>,
}

impl View for Prompt {
    type V = (PromptKind, Seq<char>, Option<SenseId>, Option<ExampleId>);

    open spec fn view(&self) -> Self::V {
        (self.kind, self.text@, self.sense_id, self.example_id)
    }
}

/// The text with the word blanked when it occurs, else the text itself.
pub open spec fn blank_or_keep(text: Seq<char>, word: Seq<char>) -> Seq<char> {
    match cloze(text, word) {
        Some(b) => b,
        None => text,
    }
}

/// Example `j` of sense `i` can be turned into a cloze.
pub open spec fn example_pred(e: WordEntry, i: int) -> spec_fn(int) -> bool {
    |j: int| cloze(e.senses@[i].examples@[j].text@, e.word@) is Some
}

/// The first example of sense `i` that can be turned into a cloze.
pub open spec fn cloze_example(e: WordEntry, i: int) -> Option<int> {
    first_from(0, e.senses@[i].examples@.len() as int, example_pred(e, i))
}

pub open spec fn cloze_sense_pred(e: WordEntry) -> spec_fn(int) -> bool {
    |i: int| cloze_example(e, i) is Some
}

/// The first sense that has an example which can be turned into a cloze.
pub open spec fn cloze_sense(e: WordEntry) -> Option<int> {
    first_from(0, e.senses@.len() as int, cloze_sense_pred(e))
}

/// The sense has a non-blank English definition.
pub open spec fn has_english(s: Sense) -> bool {
    trim(s.english_definition@).len() > 0
}

/// The sense has a non-blank Chinese definition.
pub open spec fn has_chinese(s: Sense) -> bool {
    s.chinese_definition matches Some(z) && trim(z@).len() > 0
}

pub open spec fn english_pred(e: WordEntry) -> spec_fn(int) -> bool {
    |i: int| has_english(e.senses@[i])
}

pub open spec fn chinese_pred(e: WordEntry) -> spec_fn(int) -> bool {
    |i: int| has_chinese(e.senses@[i])
}

/// The first sense with an English definition.
pub open spec fn english_sense(e: WordEntry) -> Option<int> {
    first_from(0, e.senses@.len() as int, english_pred(e))
}

/// The first sense with a Chinese definition.
pub open spec fn chinese_sense(e: WordEntry) -> Option<int> {
    first_from(0, e.senses@.len() as int, chinese_pred(e))
}

/// The English-definition prompt of sense `i`.
pub open spec fn english_prompt(e: WordEntry, i: int) -> (
    PromptKind,
    Seq<char>,
    Option<SenseId>,
    Option<ExampleId>,
) {
    (
        PromptKind::Definition,
        blank_or_keep(e.senses@[i].english_definition@, e.word@),
        Some(e.senses@[i].id),
        None,
    )
}

/// The local review fallback: the first Chinese definition, else the first English
/// definition, else an empty definition prompt; the word is blanked where it occurs.
pub open spec fn definition_prompt(e: WordEntry) -> (
    PromptKind,
    Seq<char>,
    Option<SenseId>,
    Option<ExampleId>,
) {
    match chinese_sense(e) {
        Some(i) => (
            PromptKind::DefinitionZh,
            blank_or_keep(e.senses@[i].chinese_definition.unwrap()@, e.word@),
            Some(e.senses@[i].id),
            None,
        ),
        None => match english_sense(e) {
            Some(i) => english_prompt(e, i),
            None => (PromptKind::Definition, Seq::empty(), None, None),
        },
    }
}

/// The prompt priority: the first dictionary example that holds the word, as a
/// cloze; else the first English definition; else the definition fallback.
pub open spec fn entry_prompt(e: WordEntry) -> (
    PromptKind,
    Seq<char>,
    Option<SenseId>,
    Option<ExampleId>,
) {
    match cloze_sense(e) {
        Some(i) => {
            let j = cloze_example(e, i).unwrap();
            (
                PromptKind::Cloze,
                cloze(e.senses@[i].examples@[j].text@, e.word@).unwrap(),
                Some(e.senses@[i].id),
                Some(e.senses@[i].examples@[j].id),
            )
        },
        None => match english_sense(e) {
            Some(i) => english_prompt(e, i),
            None => definition_prompt(e),
        },
    }
}

/// The text shows `source` with every whole-word occurrence of the word blanked:
/// its cloze when the word occurs, the source itself when it does not.
pub open spec fn shows_blanked(text: Seq<char>, source: Seq<char>, word: Seq<char>) -> bool {
    match cloze(source, word) {
        Some(c) => text == c,
        None => text == source,
    }
}

/// Every review prompt is made from a text of the entry with the word blanked: a
/// cloze prompt is the cloze of the example it names; a definition prompt is the
/// named sense's English definition, and a Chinese-definition prompt its Chinese
/// definition, each with the word blanked wherever it occurs as a whole word (an
/// entry without definitions gives an empty definition prompt).
pub proof fn lemma_prompt_blanks_its_source(e: WordEntry)
    ensures
        ({
            let p = entry_prompt(e);
            match p.0 {
                PromptKind::Cloze => exists|i: int, j: int|
                    0 <= i < e.senses@.len() && 0 <= j < e.senses@[i].examples@.len() && p.2 == Some(
                        e.senses@[i].id,
                    ) && p.3 == Some(#[trigger] e.senses@[i].examples@[j].id) && cloze(
                        e.senses@[i].examples@[j].text@,
                        e.word@,
                    ) == Some(p.1),
                PromptKind::Definition => (p.1.len() == 0 && p.2 is None && p.3 is None) || exists|i: int|
                    0 <= i < e.senses@.len() && p.2 == Some((#[trigger] e.senses@[i]).id) && p.3 is None
                        && shows_blanked(p.1, e.senses@[i].english_definition@, e.word@),
                PromptKind::DefinitionZh => exists|i: int|
                    0 <= i < e.senses@.len() && p.2 == Some((#[trigger] e.senses@[i]).id) && p.3 is None
                        && (e.senses@[i].chinese_definition matches Some(z) && shows_blanked(p.1, z@, e.word@)),
            }
        }),
{
    let n = e.senses@.len() as int;
    lemma_first_from(0, n, cloze_sense_pred(e));
    lemma_first_from(0, n, english_pred(e));
    lemma_first_from(0, n, chinese_pred(e));
    match cloze_sense(e) {
        Some(i) => {
            assert(cloze_sense_pred(e)(i));
            lemma_first_from(0, e.senses@[i].examples@.len() as int, example_pred(e, i));
            let j = cloze_example(e, i).unwrap();
            assert(example_pred(e, i)(j));
            assert(e.senses@[i].examples@[j].id == e.senses@[i].examples@[j].id);
        },
        None => match english_sense(e) {
            Some(i) => {
                assert(e.senses@[i] == e.senses@[i]);
            },
            None => match chinese_sense(e) {
                Some(i) => {
                    assert(chinese_pred(e)(i));
                    assert(e.senses@[i] == e.senses@[i]);
                },
                None => {},
            },
        },
    }
}

/// Under the conditions of `lemma_blanking_again_finds_nothing` for the entry's
/// word, no review prompt shows the word: its text holds no whole-word occurrence.
pub proof fn lemma_prompt_hides_word(e: WordEntry)
    requires
        !alphanumeric('_'),
        forall|c: char, j: int|
            0 <= j < str_lowercase(e.word@).len() && #[trigger] char_lowercase(c) == char_lowercase(
                #[trigger] str_lowercase(e.word@)[j],
            ) ==> alphanumeric(c),
    ensures
        cloze(entry_prompt(e).1, e.word@) is None,
{
    lemma_prompt_blanks_its_source(e);
    let p = entry_prompt(e);
    let w = e.word@;
    match p.0 {
        PromptKind::Cloze => {
            let (i, j) = choose|i: int, j: int|
                0 <= i < e.senses@.len() && 0 <= j < e.senses@[i].examples@.len() && p.2 == Some(
                    e.senses@[i].id,
                ) && p.3 == Some(#[trigger] e.senses@[i].examples@[j].id) && cloze(
                    e.senses@[i].examples@[j].text@,
                    w,
                ) == Some(p.1);
            lemma_blanking_again_finds_nothing(e.senses@[i].examples@[j].text@, w);
        },
        PromptKind::Definition => {
            if !(p.1.len() == 0 && p.2 is None && p.3 is None) {
                let i = choose|i: int|
                    0 <= i < e.senses@.len() && p.2 == Some((#[trigger] e.senses@[i]).id) && p.3 is None
                        && shows_blanked(p.1, e.senses@[i].english_definition@, w);
                if cloze(e.senses@[i].english_definition@, w) is Some {
                    lemma_blanking_again_finds_nothing(e.senses@[i].english_definition@, w);
                }
            }
        },
        PromptKind::DefinitionZh => {
            let i = choose|i: int|
                0 <= i < e.senses@.len() && p.2 == Some((#[trigger] e.senses@[i]).id) && p.3 is None
                    && (e.senses@[i].chinese_definition matches Some(z) && shows_blanked(p.1, z@, w));
            let z = e.senses@[i].chinese_definition.unwrap()@;
            if cloze(z, w) is Some {
                lemma_blanking_again_finds_nothing(z, w);
            }
        },
    }
}

fn sense_has_english(s: &Sense) -> (r: bool)
    ensures
        r == has_english(*s),
{
    let v = chars_of(s.english_definition.as_str());
    trim_chars(&v).len() > 0
}

fn sense_has_chinese(s: &Sense) -> (r: bool)
    ensures
        r == has_chinese(*s),
{
    match &s.chinese_definition {
        Some(z) => {
            let v = chars_of(z.as_str());
            trim_chars(&v).len() > 0
        },
        None => false,
    }
}

fn blank_or_keep_text(text: &String, word: &String) -> (r: String)
    ensures
        r@ == blank_or_keep(text@, word@),
{
    match blank_word(text.as_str(), word.as_str()) {
        Some(b) => b,
        None => text.clone(),
    }
}

/// Index of the first sense with an English definition.
fn find_english(entry: &WordEntry) -> (r: Option<usize>)
    ensures
        match r {
            Some(i) => english_sense(*entry) == Some(i as int) && i < entry.senses@.len(),
            None => english_sense(*entry) is None,
        },
{
    let n = entry.senses.len();
    let mut i: usize = 0;
    while i < n
        invariant
            i <= n == entry.senses@.len(),
            english_sense(*entry) == first_from(i as int, n as int, english_pred(*entry)),
        decreases n - i,
    {
        if sense_has_english(&entry.senses[i]) {
            return Some(i);
        }
        i += 1;
    }
    None
}

/// Index of the first sense with a Chinese definition.
fn find_chinese(entry: &WordEntry) -> (r: Option<usize>)
    ensures
        match r {
            Some(i) => chinese_sense(*entry) == Some(i as int) && i < entry.senses@.len() && has_chinese(
                entry.senses@[i as int],
            ),
            None => chinese_sense(*entry) is None,
        },
{
    let n = entry.senses.len();
    let mut i: usize = 0;
    while i < n
        invariant
            i <= n == entry.senses@.len(),
            chinese_sense(*entry) == first_from(i as int, n as int, chinese_pred(*entry)),
        decreases n - i,
    {
        if sense_has_chinese(&entry.senses[i]) {
            return Some(i);
        }
        i += 1;
    }
    None
}

fn english_prompt_of(entry: &WordEntry, i: usize) -> (r: Prompt)
    requires
        i < entry.senses@.len(),
    ensures
        r@ == english_prompt(*entry, i as int),
{
    let s = &entry.senses[i];
    Prompt {
        kind: PromptKind::Definition,
        text: blank_or_keep_text(&s.english_definition, &entry.word),
        sense_id: Some(s.id),
        example_id: None,
    }
}

/// Prompt priority: dictionary example cloze → English definition → Chinese fallback.
pub fn build_prompt(entry: &WordEntry) -> (r: Prompt)
    ensures
        r@ == entry_prompt(*entry),
{
    let n = entry.senses.len();
    let mut i: usize = 0;
    while i < n
        invariant
            i <= n == entry.senses@.len(),
            cloze_sense(*entry) == first_from(i as int, n as int, cloze_sense_pred(*entry)),
        decreases n - i,
    {
        let sense = &entry.senses[i];
        let m = sense.examples.len();
        let mut j: usize = 0;
        while j < m
            invariant
                i < n == entry.senses@.len(),
                sense == entry.senses@[i as int],
                j <= m == sense.examples@.len(),
                cloze_sense(*entry) == first_from(i as int, n as int, cloze_sense_pred(*entry)),
                cloze_example(*entry, i as int) == first_from(j as int, m as int, example_pred(*entry, i as int)),
            decreases m - j,
        {
            let ex = &sense.examples[j];
            match blank_word(ex.text.as_str(), entry.word.as_str()) {
                Some(blanked) => {
                    assert(example_pred(*entry, i as int)(j as int));
                    assert(cloze_sense_pred(*entry)(i as int));
                    return Prompt {
                        kind: PromptKind::Cloze,
                        text: blanked,
                        sense_id: Some(sense.id),
                        example_id: Some(ex.id),
                    };
                },
                None => {},
            }
            j += 1;
        }
        assert(!cloze_sense_pred(*entry)(i as int));
        i += 1;
    }
    match find_english(entry) {
        Some(k) => english_prompt_of(entry, k),
        None => build_definition_prompt(entry),
    }
}

/// The review fallback: definitions only (Chinese first, then English), so that a
/// dictionary example is never used as the question.
pub fn build_definition_prompt(entry: &WordEntry) -> (r: Prompt)
    ensures
        r@ == definition_prompt(*entry),
{
    match find_chinese(entry) {
        Some(k) => {
            let s = &entry.senses[k];
            let zh = match &s.chinese_definition {
                Some(z) => z.clone(),
                None => String::new(),
            };
            Prompt {
                kind: PromptKind::DefinitionZh,
                text: blank_or_keep_text(&zh, &entry.word),
                sense_id: Some(s.id),
                example_id: None,
            }
        },
        None => match find_english(entry) {
            Some(k) => english_prompt_of(entry, k),
            None => Prompt {
                kind: PromptKind::Definition,
                text: String::new(),
                sense_id: None,
                example_id: None,
            },
        },
    }
}

} // verus!
