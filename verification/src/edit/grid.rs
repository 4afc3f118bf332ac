//! The edit grid.

use vstd::prelude::*;

verus! {

/// Every Nth grid line gets the "major" weight and brightness.
pub const MAJOR_EVERY: i32 = 4;

/// Grid line `i` (counted from the origin, negative on the other side) is a
/// major line.
pub fn is_major_line(i: i32) -> (major: bool)
    ensures
        major == (i as int % MAJOR_EVERY as int == 0),
{
    i % MAJOR_EVERY == 0
}

} // verus!
