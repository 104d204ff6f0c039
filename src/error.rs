//! Error codes
use vstd::prelude::*;

verus! {

/// Errors that can occur when reading directory entries.
#[derive(Debug, Clone, PartialEq, Eq)]
pub enum Error {
    /// A required attribute in a search result was missing.
    Missing,
    /// The contents of an attribute did not conform to the expected syntax.
    Invalid(String),
}

} // verus!
