//! A record with a name.
use vstd::prelude::*;

verus! {

/// A named record.
#[derive(Debug)]
pub struct Example {
    name: String,
}

impl Example {
    /// The record's name.
    pub closed spec fn spec_name(&self) -> Seq<char> {
        self.name@
    }

    /// The record named `"example"`.
    pub fn new() -> (e: Example)
        ensures
            e.spec_name() == "example"@,
    {
        Example { name: "example".to_string() }
    }

    /// Reads the name.
    pub fn name(&self) -> (n: &String)
        ensures
            n@ == self.spec_name(),
    {
        &self.name
    }
}

impl Default for Example {
    /// The same record as [`Example::new`].
    fn default() -> (e: Self)
        ensures
            e.spec_name() == "example"@,
    {
        Self::new()
    }
}

} // verus!
