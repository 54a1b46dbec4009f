//! Which schema migrations a database still needs.

use vstd::prelude::*;

verus! {

/// The first migration a database at `version` still needs (migration `i` brings
/// the schema to version `i + 1`).
pub open spec fn first_pending(version: i64, count: usize) -> int {
    if version <= 0 {
        0
    } else if version >= count {
        count as int
    } else {
        version as int
    }
}

/// The indices of the migrations that a database at `version` still needs, in
/// order: every migration whose target version is above `version`.
pub fn pending_migrations(version: i64, count: usize) -> (r: Vec<usize>)
    ensures
        r@.len() == count - first_pending(version, count),
        forall|k: int| 0 <= k < r@.len() ==> #[trigger] r@[k] == first_pending(version, count) + k,
{
    let mut out: Vec<usize> = Vec::new();
    let mut i: usize = 0;
    while i < count
        invariant
            i <= count,
            out@.len() == if i <= first_pending(version, count) { 0 } else { i - first_pending(version, count) },
            forall|k: int| 0 <= k < out@.len() ==> #[trigger] out@[k] == first_pending(version, count) + k,
        decreases count - i,
    {
        if (version as i128) < (i as i128) + 1 {
            out.push(i);
        }
        i += 1;
    }
    out
}

} // verus!
