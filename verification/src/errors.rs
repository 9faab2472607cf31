//! The library's errors.
use vstd::prelude::*;

verus! {

/// What can go wrong in the library's operations.
#[derive(Debug)]
pub enum MyCustomError {
    UnknownError,
    SetupError,
    ParseError,
    /// Several files claim one name in a way that cannot be reconciled.
    DuplicateFiles { files: Vec<String> },
    InvalidCommand { name: String },
}

} // verus!
