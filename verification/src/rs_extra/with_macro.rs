//! The same addition as built with the macro crate, which adds one more.
use vstd::prelude::*;
use crate::rs_macro::spec_sum;

verus! {

/// `left + right + 1`, summed by [`crate::rs_macro::add`] as the macro crate does.
pub fn add_conditional(left: usize, right: usize) -> (v: usize)
    requires
        left + right + 1 <= usize::MAX,
    ensures
        v == left + right + 1,
{
    let parts: [usize; 3] = [left, right, 1];
    proof {
        reveal_with_fuel(spec_sum, 4);
        assert(parts@.subrange(1, 3) =~= seq![right, 1usize]);
        assert(parts@.subrange(2, 3) =~= seq![1usize]);
        assert(parts@.subrange(3, 3) =~= Seq::<usize>::empty());
    }
    crate::rs_macro::add(parts.as_slice())
}

} // verus!
