//! Error taxonomy of the core.
//!
//! Login and ownership failures are deliberately low-information:
//! `InvalidCredentials` merges "no such user" with "wrong password", and
//! `NotFoundOrForbidden` merges "no such mission" with "not the chief", so
//! that neither response discloses whether the resource exists.

use vstd::prelude::*;

verus! {

#[derive(Clone, Copy, PartialEq, Eq, Structural, Debug)]
pub enum CoreError {
    /// Malformed input shape.
    ValidationError,
    /// Duplicate username at registration.
    Conflict,
    /// Login mismatch: merges "no such user" and "wrong password".
    InvalidCredentials,
    /// Missing, malformed, badly signed or expired bearer credential.
    Unauthorized,
    /// Mission update refused: merges "no such mission" and "not the chief".
    NotFoundOrForbidden,
    /// Collaborator failure, surfaced as a generic internal error.
    StorageError,
}

impl CoreError {
    /// Uniform, enumeration-resistant message for each failure.
    pub fn message(&self) -> (r: &'static str)
        ensures
            *self == CoreError::Conflict ==> r@ == "Username already exists"@,
            *self == CoreError::InvalidCredentials ==> r@ == "Invalid username or password"@,
            *self == CoreError::Unauthorized ==> r@ == "Unauthorized"@,
            *self == CoreError::NotFoundOrForbidden ==> r@ == "Mission not found or not yours"@,
            *self == CoreError::StorageError ==> r@ == "Internal server error"@,
            *self == CoreError::ValidationError ==> r@ == "Invalid request"@,
    {
        match *self {
            CoreError::ValidationError => "Invalid request",
            CoreError::Conflict => "Username already exists",
            CoreError::InvalidCredentials => "Invalid username or password",
            CoreError::Unauthorized => "Unauthorized",
            CoreError::NotFoundOrForbidden => "Mission not found or not yours",
            CoreError::StorageError => "Internal server error",
        }
    }
}

/// Body of an error reply handed back to the routing layer.
#[derive(Debug, Clone)]
pub struct ErrorResponse {
    pub message: String,
}

impl ErrorResponse {
    pub fn new(message: String) -> (r: Self)
        ensures
            r.message == message,
    {
        Self { message }
    }
}

} // verus!
