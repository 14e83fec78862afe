//! Error taxonomy: storage-level failures, duplicate identities, rejected
//! input and internal faults, with their public, non-leaking descriptions.

use vstd::prelude::*;

verus! {

/// A storage-level failure. The in-memory stores can only fail by running
/// out of identifier space; the variant names mirror the taxonomy of a
/// connection-backed store.
#[derive(Debug)]
pub enum DatabaseError {
    ConnectionError(String),
    MigrationError(String),
}

/// An application-level failure, as surfaced to callers of the
/// authentication and authorization services.
#[derive(Debug)]
pub enum ApplicationError {
    DatabaseError(DatabaseError),
    UserAlreadyExists(String),
    InvalidInput(String),
    InternalError(String),
}

impl ApplicationError {
    /// The HTTP status code this error maps to at the service boundary.
    pub open spec fn status_spec(&self) -> u16 {
        match self {
            ApplicationError::DatabaseError(_) => 500,
            ApplicationError::UserAlreadyExists(_) => 409,
            ApplicationError::InvalidInput(_) => 400,
            ApplicationError::InternalError(_) => 500,
        }
    }

    /// The fixed public description; internal detail is never echoed back.
    pub open spec fn public_message_spec(&self) -> Seq<char> {
        match self {
            ApplicationError::DatabaseError(_) => "Internal server error"@,
            ApplicationError::UserAlreadyExists(_) => "User already exists"@,
            ApplicationError::InvalidInput(_) => "Invalid input"@,
            ApplicationError::InternalError(_) => "Internal server error"@,
        }
    }

    pub fn http_status(&self) -> (s: u16)
        ensures
            s == self.status_spec(),
    {
        match self {
            ApplicationError::DatabaseError(_) => 500,
            ApplicationError::UserAlreadyExists(_) => 409,
            ApplicationError::InvalidInput(_) => 400,
            ApplicationError::InternalError(_) => 500,
        }
    }

    pub fn public_message(&self) -> (m: String)
        ensures
            m@ == self.public_message_spec(),
    {
        match self {
            ApplicationError::DatabaseError(_) => String::from_str("Internal server error"),
            ApplicationError::UserAlreadyExists(_) => String::from_str("User already exists"),
            ApplicationError::InvalidInput(_) => String::from_str("Invalid input"),
            ApplicationError::InternalError(_) => String::from_str("Internal server error"),
        }
    }
}

} // verus!
