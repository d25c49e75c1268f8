//! Alignment of offsets to a fixed boundary.

use vstd::prelude::*;

verus! {

/// The smallest multiple of `boundary` that is not below `value`.
///
/// Zero is aligned to every boundary, the boundary zero included.
pub open spec fn ceil_align(value: int, boundary: int) -> int {
    if value == 0 || boundary <= 0 {
        value
    } else {
        value + (boundary - value % boundary) % boundary
    }
}

/// The largest multiple of `boundary` that is not above `value`.
pub open spec fn floor_align(value: int, boundary: int) -> int {
    if boundary <= 0 {
        value
    } else {
        value - value % boundary
    }
}

/// `ceil_align` yields a multiple of the boundary, at or above the value and
/// less than one boundary away from it.
pub proof fn lemma_ceil_align(value: int, boundary: int)
    requires
        0 <= value,
        0 < boundary,
    ensures
        ceil_align(value, boundary) % boundary == 0,
        value <= ceil_align(value, boundary) < value + boundary,
        value % boundary == 0 ==> ceil_align(value, boundary) == value,
{
    let r = value % boundary;
    assert(0 <= r < boundary);
    if r == 0 {
        assert((boundary - r) % boundary == 0) by (nonlinear_arith)
            requires
                r == 0,
                boundary > 0,
        ;
    } else {
        assert((boundary - r) % boundary == boundary - r) by (nonlinear_arith)
            requires
                0 < r < boundary,
        ;
        assert((value + (boundary - r)) % boundary == 0) by (nonlinear_arith)
            requires
                r == value % boundary,
                0 < r < boundary,
                0 <= value,
        ;
    }
}

/// Align a value to the next multiple of the given boundary.
pub fn align_to_boundary(value: u64, boundary: u64) -> (aligned: u64)
    requires
        value == 0 || boundary > 0,
        ceil_align(value as int, boundary as int) <= u64::MAX,
    ensures
        aligned == ceil_align(value as int, boundary as int),
{
    if value == 0 {
        return 0;
    }
    proof {
        lemma_ceil_align(value as int, boundary as int);
    }
    value + (boundary - (value % boundary)) % boundary
}

} // verus!
