//! A puzzle record, compared by piece count and by name regardless of case.
use vstd::prelude::*;
use vstd::std_specs::cmp::PartialEqSpecImpl;
use vstd::std_specs::convert::FromSpecImpl;
use crate::text::{lowercase, to_lowercase};

verus! {

/// A puzzle: how many pieces and what it is called.
#[derive(Clone, Debug)]
pub struct Puzzle {
    pub num_pieces: u32,
    pub name: String,
}

impl Default for Puzzle {
    /// Ten pieces, named `"default"`.
    fn default() -> (p: Self)
        ensures
            p.num_pieces == 10,
            p.name@ == "default"@,
    {
        Puzzle { num_pieces: 10, name: "default".to_string() }
    }
}

impl PartialEq for Puzzle {
    fn eq(&self, other: &Self) -> (r: bool) {
        (self.num_pieces == other.num_pieces) && (to_lowercase(self.name.as_str()) == to_lowercase(
            other.name.as_str(),
        ))
    }
}

impl PartialEqSpecImpl for Puzzle {
    open spec fn obeys_eq_spec() -> bool {
        true
    }

    open spec fn eq_spec(&self, other: &Self) -> bool {
        self.num_pieces == other.num_pieces && lowercase(self.name@) == lowercase(other.name@)
    }
}

impl From<Puzzle> for String {
    fn from(value: Puzzle) -> (s: Self) {
        value.name
    }
}

impl FromSpecImpl<Puzzle> for String {
    open spec fn obeys_from_spec() -> bool {
        true
    }

    open spec fn from_spec(v: Puzzle) -> Self {
        v.name
    }
}

impl<'a> From<&'a Puzzle> for String {
    fn from(value: &'a Puzzle) -> (s: Self) {
        value.name.clone()
    }
}

impl<'a> FromSpecImpl<&'a Puzzle> for String {
    open spec fn obeys_from_spec() -> bool {
        true
    }

    open spec fn from_spec(v: &'a Puzzle) -> Self {
        v.name
    }
}

} // verus!
