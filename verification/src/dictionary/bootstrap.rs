//! The decisions of the first-run dictionary setup: when the full corpus counts as
//! present, which archive entry is the database, when download progress is
//! reported, and what the setup answers.

use vstd::prelude::*;
use crate::text::chars_of;

verus! {

/// The full corpus counts as imported from this many ECDICT entries on.
pub const READY_MIN_ENTRIES: i64 = 1_000_000;

/// Download progress is reported at least every 2 MiB.
pub const PROGRESS_STEP_BYTES: u64 = 2_097_152;

/// The phases that the setup reports to the front end.
#[derive(Clone, Copy, Debug, PartialEq, Eq, Structural)]
pub enum SetupPhase {
    Checking,
    Downloading,
    Extracting,
    Importing,
    Ready,
    Error,
}

/// What the setup answers.
#[derive(Clone, Copy, Debug, PartialEq, Eq, Structural)]
pub struct EnsureDictionaryResult {
    pub ready: bool,
    pub word_count: i64,
    pub imported: usize,
    /// Nothing was downloaded or imported: the corpus was already there.
    pub skipped: bool,
}

/// The dictionary is ready when the ready marker exists or enough ECDICT
/// entries were imported.
pub fn dictionary_ready(marker_present: bool, ecdict_entries: i64) -> (r: bool)
    ensures
        r == (marker_present || ecdict_entries >= READY_MIN_ENTRIES),
{
    marker_present || ecdict_entries >= READY_MIN_ENTRIES
}

/// The answer when the corpus was already present.
pub fn already_ready(word_count: i64) -> (r: EnsureDictionaryResult)
    ensures
        r == (EnsureDictionaryResult { ready: true, word_count, imported: 0, skipped: true }),
{
    EnsureDictionaryResult { ready: true, word_count, imported: 0, skipped: true }
}

/// The answer after a download and import.
pub fn after_import(word_count: i64, imported: usize) -> (r: EnsureDictionaryResult)
    ensures
        r == (EnsureDictionaryResult { ready: true, word_count, imported, skipped: false }),
{
    EnsureDictionaryResult { ready: true, word_count, imported, skipped: false }
}

/// Whether to report download progress after `written` bytes, the last report
/// having been at `last_report`: after more than 2 MiB, or once the known total
/// is reached.
pub fn progress_due(written: u64, last_report: u64, total: Option<u64>) -> (r: bool)
    requires
        last_report <= written,
    ensures
        r == (written - last_report > PROGRESS_STEP_BYTES || (total matches Some(t) && written >= t)),
{
    written - last_report > PROGRESS_STEP_BYTES || match total {
        Some(t) => written >= t,
        None => false,
    }
}

/// The last path component of an archive entry name, with '\' read as '/': empty
/// and "." components are skipped, and a final ".." has no name.
pub open spec fn base_name(name: Seq<char>) -> Seq<char>
    decreases name.len(),
{
    base_name_from(name.map_values(|c: char| if c == '\\' { '/' } else { c }), name.len() as int)
}

/// The name of the last component that ends at or before `end` (see `base_name`).
pub open spec fn base_name_from(s: Seq<char>, end: int) -> Seq<char>
    decreases end,
{
    if end <= 0 || end > s.len() {
        Seq::empty()
    } else {
        proof {
            lemma_component_start(s, end);
        }
        let start = component_start(s, end);
        let comp = s.subrange(start, end);
        if comp.len() == 0 || comp == seq!['.'] {
            if start <= 0 {
                Seq::empty()
            } else {
                base_name_from(s, start - 1)
            }
        } else if comp == seq!['.', '.'] {
            Seq::empty()
        } else {
            comp
        }
    }
}

/// Where the component that ends at `end` starts: just after the last '/' before `end`.
pub open spec fn component_start(s: Seq<char>, end: int) -> int
    decreases end,
{
    if end <= 0 {
        0
    } else if s[end - 1] == '/' {
        end
    } else {
        component_start(s, end - 1)
    }
}

/// An archive entry is the dictionary database when its file name ends in ".db",
/// whatever the case of the letters ("stardict.db" among them).
pub open spec fn is_database_name(name: Seq<char>) -> bool {
    let b = base_name(name);
    &&& b.len() >= 3
    &&& b[b.len() - 3] == '.'
    &&& (b[b.len() - 2] == 'd' || b[b.len() - 2] == 'D')
    &&& (b[b.len() - 1] == 'b' || b[b.len() - 1] == 'B')
}

/// A path component starts right after the last '/' before its end, so it holds
/// no '/' itself.
pub proof fn lemma_component_start(s: Seq<char>, end: int)
    requires
        0 <= end <= s.len(),
    ensures
        0 <= component_start(s, end) <= end,
        forall|k: int| component_start(s, end) <= k < end ==> s[k] != '/',
        component_start(s, end) > 0 ==> s[component_start(s, end) - 1] == '/',
    decreases end,
{
    if end > 0 && s[end - 1] != '/' {
        lemma_component_start(s, end - 1);
    }
}

/// Whether an entry of the downloaded archive is the dictionary database (see
/// `is_database_name`).
pub fn is_database_entry(name: &str) -> (r: bool)
    ensures
        r == is_database_name(name@),
{
    let raw = chars_of(name);
    let mut s: Vec<char> = Vec::new();
    let mut i: usize = 0;
    while i < raw.len()
        invariant
            i <= raw.len(),
            s@ == raw@.subrange(0, i as int).map_values(|c: char| if c == '\\' { '/' } else { c }),
        decreases raw.len() - i,
    {
        let c = raw[i];
        s.push(if c == '\\' { '/' } else { c });
        assert(raw@.subrange(0, i + 1).map_values(|c: char| if c == '\\' { '/' } else { c }) =~= raw@.subrange(
            0,
            i as int,
        ).map_values(|c: char| if c == '\\' { '/' } else { c }).push(if c == '\\' { '/' } else { c }));
        i += 1;
    }
    assert(raw@.subrange(0, i as int) =~= raw@);
    let ghost sv = s@;
    // Walk components from the end until one has a name.
    let mut end: usize = s.len();
    let mut start: usize;
    loop
        invariant
            end <= s.len(),
            sv == s@,
            base_name(name@) == base_name_from(sv, end as int),
        decreases end,
    {
        if end == 0 {
            return false;
        }
        start = end;
        while start > 0 && s[start - 1] != '/'
            invariant
                start <= end <= s.len(),
                sv == s@,
                component_start(sv, end as int) == component_start(sv, start as int),
            decreases start,
        {
            start -= 1;
        }
        proof {
            lemma_component_start(sv, end as int);
        }
        let len = end - start;
        let is_dot = len == 1 && s[start] == '.';
        if len == 0 || is_dot {
            proof {
                if len == 1 {
                    assert(sv.subrange(start as int, end as int) =~= seq![sv[start as int]]);
                    if sv[start as int] != '.' {
                        assert(sv.subrange(start as int, end as int)[0] != seq!['.'][0]);
                    }
                }
                if len == 0 {
                    assert(sv.subrange(start as int, end as int) =~= Seq::<char>::empty());
                }
            }
            if start == 0 {
                return false;
            }
            end = start - 1;
        } else {
            let ghost comp = sv.subrange(start as int, end as int);
            if len == 2 && s[start] == '.' && s[start + 1] == '.' {
                assert(comp =~= seq!['.', '.']);
                return false;
            }
            proof {
                if len == 2 && !(s[start as int] == '.' && s[start + 1] == '.') {
                    assert(comp != seq!['.', '.'] || comp[0] == '.');
                    if comp == seq!['.', '.'] {
                        assert(comp[0] == seq!['.', '.'][0]);
                        assert(comp[1] == seq!['.', '.'][1]);
                    }
                }
                if len == 1 && comp == seq!['.'] {
                    assert(comp[0] == seq!['.'][0]);
                }
                if len != 1 && len != 2 {
                    assert(comp.len() != seq!['.'].len());
                    assert(comp.len() != seq!['.', '.'].len());
                }
            }
            assert(base_name(name@) == comp);
            if len < 3 {
                return false;
            }
            let d = s[end - 2];
            let b = s[end - 1];
            return s[end - 3] == '.' && (d == 'd' || d == 'D') && (b == 'b' || b == 'B');
        }
    }
}

} // verus!
