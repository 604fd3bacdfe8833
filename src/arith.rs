//! Two small integer steps and their composition.
use vstd::prelude::*;

verus! {

/// `x + 3`.
pub fn add_3(x: i32) -> (r: i32)
    requires
        x + 3 <= i32::MAX,
    ensures
        r == x + 3,
{
    x + 3
}

/// `x * 4`.
pub fn times_4(x: i32) -> (r: i32)
    requires
        i32::MIN <= x * 4 <= i32::MAX,
    ensures
        r == x * 4,
{
    x * 4
}

/// `(x + 3) * 4`.
pub fn add_3_and_times_4(x: i32) -> (r: i32)
    requires
        i32::MIN <= (x + 3) * 4 <= i32::MAX,
    ensures
        r == (x + 3) * 4,
{
    times_4(add_3(x))
}

} // verus!
