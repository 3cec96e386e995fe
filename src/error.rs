//! The errors that the services report.
use vstd::prelude::*;

verus! {

/// Why an operation was refused.
#[derive(Debug, Clone, Copy, PartialEq, Eq, Structural)]
pub enum ServiceError {
    /// A required field is missing or empty.
    Validation,
    /// A uniqueness rule would be broken (email, username, title, isbn, a second cart).
    Conflict,
    /// A user, book, cart, line or profile is absent.
    NotFound,
    /// A password did not match.
    InvalidCredentials,
    /// A token or code is absent, expired or already used.
    InvalidToken,
    /// Checkout was asked for a cart without lines.
    EmptyCart,
    /// An identifier or a quantity has reached the largest value it can hold.
    Exhausted,
}

impl ServiceError {
    /// A short human-readable message.
    pub fn message(&self) -> (r: &'static str)
        ensures
            r@ == match self {
                ServiceError::Validation => "a required field is missing"@,
                ServiceError::Conflict => "already exists"@,
                ServiceError::NotFound => "not found"@,
                ServiceError::InvalidCredentials => "invalid credentials"@,
                ServiceError::InvalidToken => "invalid or expired token"@,
                ServiceError::EmptyCart => "the cart is empty"@,
                ServiceError::Exhausted => "limit reached"@,
            },
    {
        match self {
            ServiceError::Validation => "a required field is missing",
            ServiceError::Conflict => "already exists",
            ServiceError::NotFound => "not found",
            ServiceError::InvalidCredentials => "invalid credentials",
            ServiceError::InvalidToken => "invalid or expired token",
            ServiceError::EmptyCart => "the cart is empty",
            ServiceError::Exhausted => "limit reached",
        }
    }
}

} // verus!
