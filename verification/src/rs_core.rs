//! A small runtime crate: feature-gated cache and file stubs and a runtime
//! builder.
use vstd::prelude::*;

pub mod cache;
pub mod files;
pub mod runtime;

verus! {

/// Sum of two numbers.
pub fn add(left: u64, right: u64) -> (r: u64)
    requires
        left + right <= u64::MAX,
    ensures
        r == left + right,
{
    left + right
}

} // verus!
