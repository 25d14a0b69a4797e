//! Runtime builder.
use vstd::prelude::*;

verus! {

/// Configures and builds a [`Runtime`].
pub struct Builder {}

/// A built runtime, ready to start.
pub struct Runtime {}

/// Why building a runtime failed; building never fails today.
#[derive(Debug)]
pub enum BuildError {
    /// The runtime could not be set up.
    Setup,
}

impl Builder {
    /// A builder with the default settings.
    pub fn new() -> (b: Self)
        ensures
            b == (Builder {}),
    {
        Self {}
    }

    /// Builds the runtime; this always succeeds.
    pub fn build(&self) -> (r: Result<Runtime, BuildError>)
        ensures
            r is Ok,
    {
        Ok(Runtime {})
    }
}

impl Default for Builder {
    fn default() -> (b: Self)
        ensures
            b == (Builder {}),
    {
        Self::new()
    }
}

} // verus!
