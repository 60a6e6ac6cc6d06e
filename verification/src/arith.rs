//! Integer utilities.

use vstd::prelude::*;

verus! {

/// The larger of two integers.
pub open spec fn max_of(x: int, y: int) -> int {
    if x >= y {
        x
    } else {
        y
    }
}

/// Returns the larger of `x` and `y`, computed from their sum and their
/// distance rather than by selecting one of them.
pub fn number_max(x: i64, y: i64) -> (m: i64)
    ensures
        m == max_of(x as int, y as int),
{
    let wide_x: i128 = x as i128;
    let wide_y: i128 = y as i128;
    let gap: i128 = wide_y - wide_x;
    let diff: i128 = if gap < 0 {
        -gap
    } else {
        gap
    };
    let twice: i128 = wide_x + wide_y + diff;
    (twice / 2) as i64
}

} // verus!
