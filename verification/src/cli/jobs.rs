//! Work handed to a worker thread.
use vstd::prelude::*;
use crate::text::{to_uppercase, uppercase};

verus! {

/// Replaces `s` by its uppercase form.
pub fn child_job(s: &mut String)
    ensures
        final(s)@ == uppercase(old(s)@),
{
    *s = to_uppercase(s.as_str());
}

} // verus!
