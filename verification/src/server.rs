//! Request and reply bodies of the array store's HTTP interface.
use vstd::prelude::*;

verus! {

/// Asks the server to store `value`.
#[derive(Debug, Clone, PartialEq, Eq)]
pub struct SaveRequest {
    pub value: String,
}

/// Asks the server for the value stored under `index`.
#[derive(Debug, Clone, Copy, PartialEq, Eq)]
pub struct GetRequest {
    pub index: i32,
}

/// A stored value together with its index.
#[derive(Debug, Clone, PartialEq, Eq)]
pub struct Payload {
    pub index: i32,
    pub value: String,
}

} // verus!
