//! A box that hands out references to the value it holds.
use vstd::prelude::*;

verus! {

/// Holds one value.
pub struct MyBox<T> {
    v: T,
}

impl<T> MyBox<T> {
    /// The value held.
    pub closed spec fn value(&self) -> T {
        self.v
    }

    /// A box holding `x`.
    pub fn new(x: T) -> (b: MyBox<T>)
        ensures
            b.value() == x,
    {
        MyBox { v: x }
    }

    /// A shared reference to the value held.
    pub fn deref(&self) -> (r: &T)
        ensures
            *r == self.value(),
    {
        &self.v
    }

    /// A mutable reference to the value held; what is written through it is
    /// what the box holds afterwards.
    pub fn deref_mut(&mut self) -> (r: &mut T)
        ensures
            *r == old(self).value(),
            final(self).value() == *final(r),
    {
        &mut self.v
    }
}

} // verus!
