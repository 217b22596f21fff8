//! Errors of the query operations.
use vstd::prelude::*;

verus! {

/// Failure of a store operation, as reported to its caller.
#[derive(Clone, PartialEq, Eq, Debug)]
pub enum Error {
    /// The pagination parameters are invalid.
    BadRequest(String),
    /// A cursor or attribute set supplied by the caller is malformed.
    InvalidInputData(String),
    /// Stored data does not have the expected shape.
    InvalidOutputData(String),
    /// The store failed; the message is its own.
    ServerError(String),
    Unknown(String),
}

pub type Result<T> = core::result::Result<T, Error>;

} // verus!
