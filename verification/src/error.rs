//! The error taxonomy of the mutating half of the crate.
//!
//! The analyses never fail; only the mutation pipeline and the backup
//! store surface errors.

use vstd::prelude::*;

verus! {

/// Everything that can go wrong while mutating a store or handling
/// backups.  Each variant carries a human-readable detail line.
#[derive(Debug, Clone)]
pub enum SpathError {
    /// A store could not be opened or written for lack of privilege.
    AccessDenied(String),
    /// A registry key or value was absent.
    NotFound(String),
    /// A candidate value or backup file name failed a safety check.
    ValidationError(String),
    /// A backup file did not hold a well-formed record.
    ParseError(String),
    /// The advisory lock could not be created or acquired.
    LockFailure(String),
    /// A filesystem operation failed.
    IoError(String),
}

impl SpathError {
    /// The detail line carried by the error.
    pub fn detail(&self) -> (r: &String)
        ensures
            r@ == spec_detail(self),
    {
        match self {
            SpathError::AccessDenied(m) => m,
            SpathError::NotFound(m) => m,
            SpathError::ValidationError(m) => m,
            SpathError::ParseError(m) => m,
            SpathError::LockFailure(m) => m,
            SpathError::IoError(m) => m,
        }
    }
}

/// The detail line of an error, whatever its variant.
pub open spec fn spec_detail(e: &SpathError) -> Seq<char> {
    match e {
        SpathError::AccessDenied(m) => m@,
        SpathError::NotFound(m) => m@,
        SpathError::ValidationError(m) => m@,
        SpathError::ParseError(m) => m@,
        SpathError::LockFailure(m) => m@,
        SpathError::IoError(m) => m@,
    }
}

} // verus!
