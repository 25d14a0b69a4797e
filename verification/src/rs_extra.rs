//! Addition whose result depends on whether the macro crate is enabled.
use vstd::prelude::*;

pub mod with_macro;

verus! {

/// `left + right`, as built without the macro crate.
pub fn add_conditional(left: usize, right: usize) -> (v: usize)
    requires
        left + right <= usize::MAX,
    ensures
        v == left + right,
{
    left + right
}

} // verus!
