//! Numeric helpers exposed to JavaScript.
use vstd::prelude::*;

verus! {

/// Sum of two 32-bit integers.
pub fn sum(a: i32, b: i32) -> (r: i32)
    requires
        i32::MIN <= a + b <= i32::MAX,
    ensures
        r == a + b,
{
    a + b
}

} // verus!
