//! A greeting that types implement for themselves.
use vstd::prelude::*;

verus! {

/// Types that can greet, by their name and by a value.
pub trait HelloMacro {
    /// Greets with the type's name.
    fn hello_macro();

    /// Greets with this value.
    fn hello(&self);
}

} // verus!
