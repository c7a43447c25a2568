//! The error taxonomy of the authentication core.
//!
//! Input and authentication errors (`EmailAlreadyExists`, `UserNotFound`,
//! `Unauthorized`, `InvalidToken`) are expected outcomes that map to client
//! failures; integrity errors (hashing, verification, malformed stored data)
//! and collaborator failures map to server failures.

use vstd::prelude::*;
use vstd::string::StringExecFns;

verus! {

/// A failure reported by a storage collaborator (user store or token cache).
#[derive(Debug)]
pub enum RepositoryError {
    /// The store already holds a record with this unique email.
    EmailConflict,
    /// A stored id was not a well-formed UUID string.
    InvalidUuidFormat,
    /// A row that was required is missing.
    NoRowFound,
    /// A stored value could not be converted to the domain type.
    ConversionError(String),
}

pub type RepositoryResult<T> = Result<T, RepositoryError>;

/// An error surfaced by the authentication use cases.
#[derive(Debug)]
pub enum AppError {
    EmailAlreadyExists(String),
    UserNotFound,
    Unauthorized,
    InvalidToken,
    TokenExpired,
    TokenGenerationFailed(String),
    TokenParsingFailed(String),
    PasswordHashingFailed(String),
    PasswordVerificationFailed(String),
    RepositoryError(RepositoryError),
    ValidationError(Vec<String>),
}

pub type AppResult<T> = Result<T, AppError>;

/// The HTTP-equivalent status code of an error, as a plain integer.
pub open spec fn spec_status_code(e: &AppError) -> u16 {
    match e {
        AppError::EmailAlreadyExists(_) => 409,
        AppError::UserNotFound => 404,
        AppError::Unauthorized => 401,
        AppError::InvalidToken => 401,
        AppError::TokenExpired => 401,
        AppError::ValidationError(_) => 422,
        _ => 500,
    }
}

impl AppError {
    /// Maps each error to the status code its transport response carries.
    pub fn status_code(&self) -> (r: u16)
        ensures
            r == spec_status_code(self),
    {
        match self {
            AppError::EmailAlreadyExists(_) => 409,
            AppError::UserNotFound => 404,
            AppError::Unauthorized => 401,
            AppError::InvalidToken => 401,
            AppError::TokenExpired => 401,
            AppError::ValidationError(_) => 422,
            _ => 500,
        }
    }

    /// The extra detail strings of a validation failure, absent otherwise.
    pub fn details(&self) -> (r: Option<Vec<String>>)
        ensures
            match self {
                AppError::ValidationError(errors) => {
                    &&& r is Some
                    &&& r->0.len() == errors.len()
                    &&& forall|i: int|
                        0 <= i < errors.len() ==> r->0[i]@ == errors[i]@
                },
                _ => r is None,
            },
    {
        match self {
            AppError::ValidationError(errors) => {
                let mut out: Vec<String> = Vec::new();
                let mut i: usize = 0;
                while i < errors.len()
                    invariant
                        i <= errors.len(),
                        out.len() == i,
                        forall|j: int| 0 <= j < i ==> out[j]@ == errors[j]@,
                    decreases errors.len() - i,
                {
                    out.push(errors[i].clone());
                    i = i + 1;
                }
                Some(out)
            },
            _ => None,
        }
    }

    /// A human-readable message, in place of a `Display` implementation.
    pub fn message(&self) -> (r: String)
        ensures
            match self {
                AppError::EmailAlreadyExists(email) => r@ == "Email "@ + email@
                    + " already exists"@,
                AppError::UserNotFound => r@ == "User not found"@,
                AppError::Unauthorized => r@ == "Unauthorized"@,
                AppError::InvalidToken => r@ == "Invalid token"@,
                AppError::TokenExpired => r@ == "Token expired"@,
                AppError::TokenGenerationFailed(msg) => r@ == "Token generation failed: "@
                    + msg@,
                AppError::TokenParsingFailed(msg) => r@ == "Token is invalid: "@ + msg@,
                AppError::PasswordHashingFailed(msg) => r@ == "Password hashing failed: "@
                    + msg@,
                AppError::PasswordVerificationFailed(msg) => r@
                    == "Password verification failed: "@ + msg@,
                AppError::RepositoryError(_) => r@ == "Repository failure"@,
                AppError::ValidationError(_) => r@ == "Validation failed"@,
            },
    {
        match self {
            AppError::EmailAlreadyExists(email) => String::from_str("Email ").concat(
                email.as_str(),
            ).concat(" already exists"),
            AppError::UserNotFound => String::from_str("User not found"),
            AppError::Unauthorized => String::from_str("Unauthorized"),
            AppError::InvalidToken => String::from_str("Invalid token"),
            AppError::TokenExpired => String::from_str("Token expired"),
            AppError::TokenGenerationFailed(msg) => String::from_str(
                "Token generation failed: ",
            ).concat(msg.as_str()),
            AppError::TokenParsingFailed(msg) => String::from_str("Token is invalid: ").concat(
                msg.as_str(),
            ),
            AppError::PasswordHashingFailed(msg) => String::from_str(
                "Password hashing failed: ",
            ).concat(msg.as_str()),
            AppError::PasswordVerificationFailed(msg) => String::from_str(
                "Password verification failed: ",
            ).concat(msg.as_str()),
            AppError::RepositoryError(_) => String::from_str("Repository failure"),
            AppError::ValidationError(_) => String::from_str("Validation failed"),
        }
    }
}

} // verus!
