//! Error values returned by the store's operations.

use vstd::prelude::*;

verus! {

/// Why a candidate document name was rejected by the naming policy.
/// The variants follow the order in which the checks run: the first
/// failing check decides the variant.
#[derive(Clone, Copy, Debug, PartialEq, Eq, Structural)]
pub enum ValidationError {
    /// The name is the empty string.
    Empty,
    /// The name is longer than the policy's limit of 255 characters.
    TooLong,
    /// The name holds a `..` sequence, a path separator, or a NUL byte.
    ForbiddenSequence,
    /// The name holds a character outside letters, digits, `-`, `_` and `.`.
    InvalidCharacter,
    /// The name does not end with `.json`.
    MissingJsonSuffix,
    /// The name does not start with `doppelkopf-`.
    MissingPrefix,
}

/// Failures of a store operation.
#[derive(Clone, Copy, Debug, PartialEq, Eq, Structural)]
pub enum StoreError {
    /// The document name failed the naming policy; no disk state was touched.
    Validation(ValidationError),
    /// The resolved path escaped the base directory. This is a second,
    /// independent line of defense: it is proved unreachable for names the
    /// validator accepts.
    PathTraversal,
    /// A read found no document under the given name.
    NotFound,
    /// The underlying filesystem failed.
    Io,
}

impl ValidationError {
    /// A short human-readable description of the rejection.
    pub fn message(&self) -> (r: &'static str)
        ensures
            r@.len() > 0,
    {
        proof {
            reveal_strlit("filename cannot be empty");
            reveal_strlit("filename too long (max 255 characters)");
            reveal_strlit("filename contains a forbidden sequence");
            reveal_strlit("filename contains an invalid character");
            reveal_strlit("filename must end with .json");
            reveal_strlit("filename must start with 'doppelkopf-'");
        }
        match self {
            ValidationError::Empty => "filename cannot be empty",
            ValidationError::TooLong => "filename too long (max 255 characters)",
            ValidationError::ForbiddenSequence => "filename contains a forbidden sequence",
            ValidationError::InvalidCharacter => "filename contains an invalid character",
            ValidationError::MissingJsonSuffix => "filename must end with .json",
            ValidationError::MissingPrefix => "filename must start with 'doppelkopf-'",
        }
    }
}

} // verus!
