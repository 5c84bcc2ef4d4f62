use vstd::prelude::*;
use core::ops::Range;

verus! {

/// Two half-open intervals overlap when both are non-empty and each one
/// starts before the other ends.
pub open spec fn spec_overlap(a_start: int, a_end: int, b_start: int, b_end: int) -> bool {
    a_start < a_end && b_start < b_end && a_start < b_end && b_start < a_end
}

/// Return true if two ranges overlap; an empty range overlaps nothing.
pub fn overlap(a: Range<usize>, b: Range<usize>) -> (r: bool)
    ensures
        r == spec_overlap(a.start as int, a.end as int, b.start as int, b.end as int),
{
    a.start < a.end && b.start < b.end && a.start < b.end && b.start < a.end
}

} // verus!
