//! Character and string primitives of std and of `unicode_normalization`,
//! with the verified trimming and quote folding built on them.

use vstd::prelude::*;
use unicode_normalization::UnicodeNormalization;

verus! {

/// What `char::is_alphanumeric` answers for a character.
pub uninterp spec fn alphanumeric(c: char) -> bool;

/// The Unicode White_Space property, which `char::is_whitespace` answers:
/// U+0009 to U+000D, U+0020, U+0085, U+00A0, U+1680, U+2000 to U+200A,
/// U+2028, U+2029, U+202F, U+205F and U+3000.
pub open spec fn whitespace(c: char) -> bool {
    let n = c as int;
    ||| 0x9 <= n <= 0xD
    ||| n == 0x20
    ||| n == 0x85
    ||| n == 0xA0
    ||| n == 0x1680
    ||| 0x2000 <= n <= 0x200A
    ||| n == 0x2028
    ||| n == 0x2029
    ||| n == 0x202F
    ||| n == 0x205F
    ||| n == 0x3000
}

/// The characters that `char::to_lowercase` yields for a character.
pub uninterp spec fn char_lowercase(c: char) -> Seq<char>;

/// The characters of `str::to_lowercase` applied to a string.
pub uninterp spec fn str_lowercase(s: Seq<char>) -> Seq<char>;

/// The characters of the NFKC normal form of a string (`unicode_normalization`).
pub uninterp spec fn nfkc_form(s: Seq<char>) -> Seq<char>;

/// Calls `char::is_alphanumeric`; the result is named by `alphanumeric`.
#[verifier::external_body]
pub(crate) fn is_alphanumeric(c: char) -> (r: bool)
    ensures
        r == alphanumeric(c),
{
    c.is_alphanumeric()
}

/// Whether the character has the White_Space property (see `whitespace`).
pub(crate) fn is_whitespace(c: char) -> (r: bool)
    ensures
        r == whitespace(c),
{
    ('\u{9}' <= c && c <= '\u{d}') || c == ' ' || c == '\u{85}' || c == '\u{a0}' || c == '\u{1680}'
        || ('\u{2000}' <= c && c <= '\u{200a}') || c == '\u{2028}' || c == '\u{2029}' || c == '\u{202f}'
        || c == '\u{205f}' || c == '\u{3000}'
}

/// Compares the `char::to_lowercase` sequences of two characters with `Iterator::eq`;
/// claims the answer is equality of the named lowercase sequences.
#[verifier::external_body]
pub(crate) fn same_lowercase(a: char, b: char) -> (r: bool)
    ensures
        r == (char_lowercase(a) == char_lowercase(b)),
{
    a.to_lowercase().eq(b.to_lowercase())
}

/// Calls `str::to_lowercase`; the characters are named by `str_lowercase`.
#[verifier::external_body]
pub(crate) fn to_lowercase(s: &str) -> (r: String)
    ensures
        r@ == str_lowercase(s@),
{
    s.to_lowercase()
}

/// Collects `UnicodeNormalization::nfkc` of the string; named by `nfkc_form`.
#[verifier::external_body]
pub(crate) fn nfkc(s: &str) -> (r: String)
    ensures
        r@ == nfkc_form(s@),
{
    s.nfkc().collect()
}

/// `PartialEq` on `str`: equal exactly when the character sequences are equal.
#[verifier::external_body]
pub(crate) fn str_equals(a: &str, b: &str) -> (r: bool)
    ensures
        r == (a@ == b@),
{
    a == b
}

/// Collects `str::chars` into a vector: the characters of the string, in order.
/// A `Vec` never allocates more than `isize::MAX` bytes, so its length is bounded so too.
#[verifier::external_body]
pub(crate) fn chars_of(s: &str) -> (r: Vec<char>)
    ensures
        r@ == s@,
        r@.len() <= isize::MAX,
{
    s.chars().collect()
}

/// Collects characters into a `String` (`FromIterator<&char>`): the same characters.
#[verifier::external_body]
pub(crate) fn string_of(v: &Vec<char>) -> (r: String)
    ensures
        r@ == v@,
{
    v.iter().collect()
}

/// The character of a decimal digit.
pub open spec fn digit_char(d: int) -> char {
    (('0' as int) + d) as char
}

/// The decimal digits of a natural number, most significant first, no leading zero.
pub open spec fn digits(n: nat) -> Seq<char>
    decreases n,
{
    if n < 10 {
        seq![digit_char(n as int)]
    } else {
        digits(n / 10).push(digit_char((n % 10) as int))
    }
}

/// A number as `ToString` writes it: a minus sign when negative, then the digits.
pub open spec fn decimal(n: int) -> Seq<char> {
    if n < 0 {
        seq!['-'] + digits((-n) as nat)
    } else {
        digits(n as nat)
    }
}

/// The character of the decimal digit `d` (0 to 9).
fn digit(d: u64) -> (c: char)
    requires
        d < 10,
    ensures
        c == digit_char(d as int),
{
    match d {
        0 => '0',
        1 => '1',
        2 => '2',
        3 => '3',
        4 => '4',
        5 => '5',
        6 => '6',
        7 => '7',
        8 => '8',
        _ => '9',
    }
}

/// Appends the decimal digits of `n`.
fn push_digits(out: &mut Vec<char>, n: u64)
    ensures
        final(out)@ == old(out)@ + digits(n as nat),
    decreases n,
{
    if n >= 10 {
        push_digits(out, n / 10);
    }
    out.push(digit(n % 10));
    proof {
        if n >= 10 {
            assert(old(out)@ + digits(n as nat) =~= old(out)@ + digits((n / 10) as nat) + seq![
                digit_char((n % 10) as int),
            ]);
        } else {
            assert(old(out)@ + digits(n as nat) =~= old(out)@ + seq![digit_char(n as int)]);
        }
    }
}

/// The decimal text of an `i64`, as `ToString` writes it (see `decimal`).
pub(crate) fn i64_text(n: i64) -> (r: String)
    ensures
        r@ == decimal(n as int),
{
    let mut out: Vec<char> = Vec::new();
    if n < 0 {
        out.push('-');
        let m: u64 = (-(n + 1)) as u64 + 1;
        push_digits(&mut out, m);
        assert(out@ =~= seq!['-'] + digits((-n) as nat));
    } else {
        push_digits(&mut out, n as u64);
        assert(out@ =~= digits(n as nat));
    }
    string_of(&out)
}

/// The decimal text of a `u32`, as `ToString` writes it (see `decimal`).
pub(crate) fn u32_text(n: u32) -> (r: String)
    ensures
        r@ == decimal(n as int),
{
    let mut out: Vec<char> = Vec::new();
    push_digits(&mut out, n as u64);
    assert(out@ =~= digits(n as nat));
    string_of(&out)
}

/// Which characters a strip removes from both ends of a string.
#[derive(Clone, Copy, Debug, PartialEq, Eq, Structural)]
pub enum StripSet {
    /// Unicode white space, as `str::trim` removes it.
    Whitespace,
    /// Straight double and single quotes, as `trim_matches(['"', '\''])` removes them.
    QuoteMarks,
    /// Slashes, as `trim_end_matches('/')` removes them.
    Slash,
}

/// Whether `c` belongs to the set that a strip removes.
pub open spec fn in_strip_set(k: StripSet, c: char) -> bool {
    match k {
        StripSet::Whitespace => whitespace(c),
        StripSet::QuoteMarks => c == '"' || c == '\'',
        StripSet::Slash => c == '/',
    }
}

/// `s` without its leading characters of the set.
pub open spec fn strip_start(s: Seq<char>, k: StripSet) -> Seq<char>
    decreases s.len(),
{
    if s.len() > 0 && in_strip_set(k, s[0]) {
        strip_start(s.drop_first(), k)
    } else {
        s
    }
}

/// `s` without its trailing characters of the set.
pub open spec fn strip_end(s: Seq<char>, k: StripSet) -> Seq<char>
    decreases s.len(),
{
    if s.len() > 0 && in_strip_set(k, s.last()) {
        strip_end(s.drop_last(), k)
    } else {
        s
    }
}

/// `s` without the characters of the set at either end.
pub open spec fn strip(s: Seq<char>, k: StripSet) -> Seq<char> {
    strip_end(strip_start(s, k), k)
}

/// `str::trim`: leading and trailing white space removed.
pub open spec fn trim(s: Seq<char>) -> Seq<char> {
    strip(s, StripSet::Whitespace)
}

/// The text holds a character that is not white space.
pub open spec fn nonblank(s: Seq<char>) -> bool {
    exists|p: int| 0 <= p < s.len() && !whitespace(#[trigger] s[p])
}

proof fn lemma_strip_start_shape(s: Seq<char>) -> (d: int)
    ensures
        0 <= d <= s.len(),
        strip_start(s, StripSet::Whitespace) == s.subrange(d, s.len() as int),
        forall|q: int| 0 <= q < d ==> whitespace(#[trigger] s[q]),
        d < s.len() ==> !whitespace(s[d]),
    decreases s.len(),
{
    if s.len() > 0 && whitespace(s[0]) {
        let d1 = lemma_strip_start_shape(s.drop_first());
        assert(s.drop_first().subrange(d1, s.drop_first().len() as int) =~= s.subrange(d1 + 1, s.len() as int));
        assert forall|q: int| 0 <= q < d1 + 1 implies whitespace(#[trigger] s[q]) by {
            if q > 0 {
                assert(s[q] == s.drop_first()[q - 1]);
            }
        }
        assert(d1 + 1 < s.len() ==> s[d1 + 1] == s.drop_first()[d1]);
        d1 + 1
    } else {
        assert(s.subrange(0, s.len() as int) =~= s);
        0
    }
}

proof fn lemma_strip_end_shape(s: Seq<char>) -> (m: int)
    ensures
        0 <= m <= s.len(),
        strip_end(s, StripSet::Whitespace) == s.subrange(0, m),
        m > 0 ==> !whitespace(s[m - 1]),
        forall|q: int| m <= q < s.len() ==> whitespace(#[trigger] s[q]),
    decreases s.len(),
{
    if s.len() > 0 && whitespace(s.last()) {
        let m1 = lemma_strip_end_shape(s.drop_last());
        assert(s.drop_last().subrange(0, m1) =~= s.subrange(0, m1));
        assert forall|q: int| m1 <= q < s.len() implies whitespace(#[trigger] s[q]) by {
            if q < s.len() - 1 {
                assert(s[q] == s.drop_last()[q]);
            }
        }
        assert(m1 > 0 ==> s[m1 - 1] == s.drop_last()[m1 - 1]);
        m1
    } else {
        assert(s.subrange(0, s.len() as int) =~= s);
        s.len() as int
    }
}

/// Trimming leaves something exactly when the text has a character that is not
/// white space.
pub proof fn lemma_trim_nonempty(s: Seq<char>)
    ensures
        trim(s).len() > 0 <==> nonblank(s),
{
    let d = lemma_strip_start_shape(s);
    let x = s.subrange(d, s.len() as int);
    let m = lemma_strip_end_shape(x);
    if nonblank(s) {
        let p = choose|p: int| 0 <= p < s.len() && !whitespace(#[trigger] s[p]);
        assert(p >= d);
        if m == 0 {
            assert(x[p - d] == s[p]);
        }
    }
    if trim(s).len() > 0 {
        assert(x[m - 1] == s[d + m - 1]);
        assert(!whitespace(s[d + m - 1]));
    }
}

/// Whether the character is in the strip set.
pub fn in_set(k: StripSet, c: char) -> (r: bool)
    ensures
        r == in_strip_set(k, c),
{
    match k {
        StripSet::Whitespace => is_whitespace(c),
        StripSet::QuoteMarks => c == '"' || c == '\'',
        StripSet::Slash => c == '/',
    }
}

/// The characters `v[i..j]`.
pub fn slice_chars(v: &Vec<char>, i: usize, j: usize) -> (r: Vec<char>)
    requires
        i <= j <= v.len(),
    ensures
        r@ == v@.subrange(i as int, j as int),
{
    let mut out: Vec<char> = Vec::new();
    let mut k: usize = i;
    while k < j
        invariant
            i <= k <= j <= v.len(),
            out@ == v@.subrange(i as int, k as int),
        decreases j - k,
    {
        out.push(v[k]);
        proof {
            assert(v@.subrange(i as int, k + 1) =~= v@.subrange(i as int, k as int).push(v@[k as int]));
        }
        k += 1;
    }
    out
}

/// `strip_start` ends where the first character outside the set stands.
proof fn lemma_strip_start_step(s: Seq<char>, k: StripSet, i: int)
    requires
        0 <= i < s.len(),
        in_strip_set(k, s[i]),
    ensures
        strip_start(s.subrange(i, s.len() as int), k) == strip_start(s.subrange(i + 1, s.len() as int), k),
{
    assert(s.subrange(i, s.len() as int).drop_first() =~= s.subrange(i + 1, s.len() as int));
}

proof fn lemma_strip_end_step(s: Seq<char>, k: StripSet, j: int)
    requires
        0 < j <= s.len(),
        in_strip_set(k, s[j - 1]),
    ensures
        strip_end(s.subrange(0, j), k) == strip_end(s.subrange(0, j - 1), k),
{
    assert(s.subrange(0, j).drop_last() =~= s.subrange(0, j - 1));
}

/// Removes the characters of the set from both ends.
pub fn strip_chars(v: &Vec<char>, k: StripSet) -> (r: Vec<char>)
    ensures
        r@ == strip(v@, k),
{
    let len = v.len();
    let mut i: usize = 0;
    assert(v@.subrange(0, len as int) =~= v@);
    while i < len && in_set(k, v[i])
        invariant
            i <= len == v.len(),
            strip_start(v@, k) == strip_start(v@.subrange(i as int, len as int), k),
        decreases len - i,
    {
        proof {
            lemma_strip_start_step(v@, k, i as int);
        }
        i += 1;
    }
    let ghost rest = v@.subrange(i as int, len as int);
    assert(strip_start(v@, k) == rest) by {
        assert(v@.subrange(0, len as int) =~= v@);
        if i < len {
            assert(rest[0] == v@[i as int]);
        }
    }
    let mut j: usize = len;
    while j > i && in_set(k, v[j - 1])
        invariant
            i <= j <= len == v.len(),
            rest == v@.subrange(i as int, len as int),
            strip_end(rest, k) == strip_end(v@.subrange(i as int, j as int), k),
        decreases j - i,
    {
        proof {
            let w = v@.subrange(i as int, len as int);
            lemma_strip_end_step(w, k, (j - i) as int);
            assert(w.subrange(0, (j - i) as int) =~= v@.subrange(i as int, j as int));
            assert(w.subrange(0, (j - i - 1) as int) =~= v@.subrange(i as int, j - 1));
        }
        j -= 1;
    }
    assert(strip_end(v@.subrange(i as int, j as int), k) == v@.subrange(i as int, j as int)) by {
        if j > i {
            assert(v@.subrange(i as int, j as int).last() == v@[j - 1]);
        }
    }
    slice_chars(v, i, j)
}

/// Removes the characters of the set from the end only.
pub fn strip_end_chars(v: &Vec<char>, k: StripSet) -> (r: Vec<char>)
    ensures
        r@ == strip_end(v@, k),
{
    let len = v.len();
    let mut j: usize = len;
    assert(v@.subrange(0, len as int) =~= v@);
    while j > 0 && in_set(k, v[j - 1])
        invariant
            j <= len == v.len(),
            strip_end(v@, k) == strip_end(v@.subrange(0, j as int), k),
        decreases j,
    {
        proof {
            lemma_strip_end_step(v@, k, j as int);
        }
        j -= 1;
    }
    assert(strip_end(v@.subrange(0, j as int), k) == v@.subrange(0, j as int)) by {
        if j > 0 {
            assert(v@.subrange(0, j as int).last() == v@[j - 1]);
        }
    }
    slice_chars(v, 0, j)
}

/// Appends the characters of `w` to `v`.
pub fn push_all(v: &mut Vec<char>, w: &Vec<char>)
    ensures
        final(v)@ == old(v)@ + w@,
{
    let ghost base = v@;
    let mut k: usize = 0;
    while k < w.len()
        invariant
            k <= w.len(),
            v@ == base + w@.subrange(0, k as int),
        decreases w.len() - k,
    {
        v.push(w[k]);
        assert(w@.subrange(0, k + 1) =~= w@.subrange(0, k as int).push(w@[k as int]));
        k += 1;
    }
    assert(w@.subrange(0, k as int) =~= w@);
}

/// Removes leading and trailing white space (`str::trim`).
pub fn trim_chars(v: &Vec<char>) -> (r: Vec<char>)
    ensures
        r@ == trim(v@),
{
    strip_chars(v, StripSet::Whitespace)
}

/// A copy of an optional string.
pub fn copy_opt_string(o: &Option<String>) -> (r: Option<String>)
    ensures
        r == *o,
{
    match o {
        Some(x) => Some(x.clone()),
        None => None,
    }
}

} // verus!
