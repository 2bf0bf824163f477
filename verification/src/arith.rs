//! Elementary arithmetic helpers.

use vstd::prelude::*;

verus! {

/// Sum of two machine integers, proved free of overflow.
pub fn sum(x: i32, y: i32) -> (r: i32)
    requires
        i32::MIN <= x + y <= i32::MAX,
    ensures
        r == x + y,
{
    x + y
}

/// Product of two machine integers, proved free of overflow.
pub fn multiply(x: i32, y: i32) -> (r: i32)
    requires
        i32::MIN <= x * y <= i32::MAX,
    ensures
        r == x * y,
{
    x * y
}

} // verus!
