//! Small command-line building blocks: a named example record, error types and
//! their conversions, a boxed value, a puzzle record, a message queue and a
//! string job.
use vstd::prelude::*;

pub mod example;
pub mod my_error;
pub mod data_store;
pub mod pointer;
pub mod puzzle;
pub mod messenger;
pub mod jobs;

verus! {

/// Declares `std::io::Error` to the verifier; its values are only carried.
#[verifier::external_type_specification]
#[verifier::external_body]
pub struct ExIoError(std::io::Error);

} // verus!
