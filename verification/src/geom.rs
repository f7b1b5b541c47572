//! Axis-aligned bounding-box overlap on integer plane coordinates.

use vstd::prelude::*;

verus! {

/// Mathematical absolute value.
pub open spec fn abs_int(a: int) -> int {
    if a < 0 {
        -a
    } else {
        a
    }
}

/// Two axis-aligned boxes, centered at `(x1, y1)` and `(x2, y2)` with full
/// extents `(w1, h1)` and `(w2, h2)`, overlap iff the center distance on each
/// axis is below half the summed extents: `|x1 - x2| < (w1 + w2) / 2` and
/// `|y1 - y2| < (h1 + h2) / 2`, stated fraction-free by doubling both sides.
pub open spec fn spec_overlap(
    x1: int,
    y1: int,
    w1: int,
    h1: int,
    x2: int,
    y2: int,
    w2: int,
    h2: int,
) -> bool {
    2 * abs_int(x1 - x2) < w1 + w2 && 2 * abs_int(y1 - y2) < h1 + h2
}

/// Exact overlap test; the arithmetic is widened so no input can overflow.
pub fn boxes_overlap(
    x1: i64,
    y1: i64,
    w1: u64,
    h1: u64,
    x2: i64,
    y2: i64,
    w2: u64,
    h2: u64,
) -> (r: bool)
    ensures
        r == spec_overlap(
            x1 as int,
            y1 as int,
            w1 as int,
            h1 as int,
            x2 as int,
            y2 as int,
            w2 as int,
            h2 as int,
        ),
{
    let dx: i128 = (x1 as i128) - (x2 as i128);
    let dy: i128 = (y1 as i128) - (y2 as i128);
    let ax: i128 = if dx < 0 {
        -dx
    } else {
        dx
    };
    let ay: i128 = if dy < 0 {
        -dy
    } else {
        dy
    };
    2 * ax < (w1 as i128) + (w2 as i128) && 2 * ay < (h1 as i128) + (h2 as i128)
}

} // verus!
