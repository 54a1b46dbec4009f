//! First-match search over an index range, the shape of `Iterator::find`.

use vstd::prelude::*;

verus! {

/// The least index in `start..end` that satisfies `p`, if there is one.
pub open spec fn first_from(start: int, end: int, p: spec_fn(int) -> bool) -> Option<int>
    decreases end - start,
{
    if start >= end {
        None
    } else if p(start) {
        Some(start)
    } else {
        first_from(start + 1, end, p)
    }
}

/// A found index lies in range, satisfies `p`, and no earlier index does.
pub proof fn lemma_first_from(start: int, end: int, p: spec_fn(int) -> bool)
    ensures
        first_from(start, end, p) matches Some(i) ==> start <= i < end && p(i) && forall|k: int|
            start <= k < i ==> !#[trigger] p(k),
        first_from(start, end, p) is None ==> forall|k: int| start <= k < end ==> !#[trigger] p(k),
    decreases end - start,
{
    if start < end && !p(start) {
        lemma_first_from(start + 1, end, p);
    }
}

} // verus!
