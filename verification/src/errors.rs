//! The recoverable error kinds of the directory. Lookup and authentication
//! failures are returned to the caller; no operation is process-fatal.

use vstd::prelude::*;

verus! {

/// Why a directory operation failed.
#[derive(Clone, Copy, PartialEq, Eq, Structural, Debug)]
pub enum DbError {
    /// The store is full; the insertion was not performed.
    CapacityExceeded,
    /// No record with the given username exists in any searched backend.
    UserNotFound,
    /// The record exists, but the given password does not match.
    IncorrectPassword,
    /// The token is bound to no session in any searched backend.
    InvalidSession,
    /// The external backend refused to create a record.
    CreationFailed,
}

impl DbError {
    /// A short description of the error, for callers that display it.
    pub fn message(&self) -> &'static str {
        match self {
            DbError::CapacityExceeded => "capacity exceeded",
            DbError::UserNotFound => "user not found in any backend",
            DbError::IncorrectPassword => "incorrect password",
            DbError::InvalidSession => "invalid session",
            DbError::CreationFailed => "creation failed",
        }
    }
}

} // verus!
