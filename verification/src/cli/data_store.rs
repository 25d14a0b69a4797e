//! Errors of a data store.
use vstd::prelude::*;
use vstd::std_specs::convert::FromSpecImpl;
use crate::text::{debug_quoted, debug_text, push_str, string_from_chars};

verus! {

/// Why a data-store operation failed.
#[derive(Debug)]
pub enum DataStoreError {
    /// The store went away.
    Disconnect(std::io::Error),
    /// The data under the key is withheld.
    Redaction(String),
    /// A header did not match.
    InvalidHeader { expected: String, found: String },
    /// Any other failure.
    Unknown,
}

/// The message shown for a redacted key.
pub open spec fn redaction_text(key: Seq<char>) -> Seq<char> {
    "the data for key `"@ + key + "` is not available"@
}

/// The message shown for a header mismatch, each header quoted as `Debug`
/// shows a text.
pub open spec fn invalid_header_text(expected: Seq<char>, found: Seq<char>) -> Seq<char> {
    "invalid header (expected "@ + debug_quoted(expected) + ", found "@ + debug_quoted(found)
        + ")"@
}

impl DataStoreError {
    /// The message shown for the error.
    pub fn text(&self) -> (s: String)
        ensures
            match self {
                DataStoreError::Disconnect(_) => s@ == "data store disconnected"@,
                DataStoreError::Redaction(key) => s@ == redaction_text(key@),
                DataStoreError::InvalidHeader { expected, found } => s@ == invalid_header_text(
                    expected@,
                    found@,
                ),
                DataStoreError::Unknown => s@ == "unknown data store error"@,
            },
    {
        match self {
            DataStoreError::Disconnect(_) => "data store disconnected".to_string(),
            DataStoreError::Redaction(key) => {
                let mut v: Vec<char> = Vec::new();
                push_str(&mut v, "the data for key `");
                push_str(&mut v, key.as_str());
                push_str(&mut v, "` is not available");
                string_from_chars(&v)
            },
            DataStoreError::InvalidHeader { expected, found } => {
                let e = debug_text(expected.as_str());
                let f = debug_text(found.as_str());
                let mut v: Vec<char> = Vec::new();
                push_str(&mut v, "invalid header (expected ");
                push_str(&mut v, e.as_str());
                push_str(&mut v, ", found ");
                push_str(&mut v, f.as_str());
                push_str(&mut v, ")");
                string_from_chars(&v)
            },
            DataStoreError::Unknown => "unknown data store error".to_string(),
        }
    }
}

impl From<std::io::Error> for DataStoreError {
    fn from(value: std::io::Error) -> (e: Self) {
        DataStoreError::Disconnect(value)
    }
}

impl FromSpecImpl<std::io::Error> for DataStoreError {
    open spec fn obeys_from_spec() -> bool {
        true
    }

    open spec fn from_spec(v: std::io::Error) -> Self {
        DataStoreError::Disconnect(v)
    }
}

/// An operation that always fails with [`DataStoreError::Unknown`].
pub fn call_error() -> (r: Result<(), DataStoreError>)
    ensures
        r matches Err(DataStoreError::Unknown),
{
    Err(DataStoreError::Unknown)
}

/// Runs [`call_error`] and passes its failure on.
pub fn handle_error() -> (r: Result<(), DataStoreError>)
    ensures
        r matches Err(DataStoreError::Unknown),
{
    match call_error() {
        Ok(()) => Ok(()),
        Err(e) => Err(e),
    }
}

} // verus!
