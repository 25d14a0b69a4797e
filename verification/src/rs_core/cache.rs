//! Cache stubs: each operation answers with its fixed code.
use vstd::prelude::*;

verus! {

/// Code answered by a cache lookup.
pub fn get() -> (r: u8)
    ensures
        r == 3,
{
    3
}

/// Code answered by a cache removal.
pub fn remove() -> (r: u8)
    ensures
        r == 4,
{
    4
}

} // verus!
