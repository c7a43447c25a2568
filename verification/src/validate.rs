//! Request shapes and their validation rules.
//!
//! Registration wants a name of 1 to 100 characters, a well-formed email and
//! a password of at least 8 characters; login wants the latter two; refresh
//! wants a token in canonical id form. Whether a text is a well-formed email
//! is a function of the text alone, named and checked by the outside
//! validator.

use vstd::prelude::*;
use vstd::string::{StrSliceExecFns, StringExecFns};

use validator::ValidateEmail;

use crate::errors::AppError;
use crate::ids;

verus! {

/// Whether a text is a well-formed email address.
pub uninterp spec fn email_valid_of(s: Seq<char>) -> bool;

/// Relies on `validator::ValidateEmail::validate_email` for `&str`: the
/// HTML5-specification email check, a function of the text alone.
#[verifier::external_body]
pub fn email_is_valid(s: &str) -> (r: bool)
    ensures
        r == email_valid_of(s@),
{
    s.validate_email()
}

/// Rejects a text that is not in canonical id form.
pub fn validate_uuid(uuid: &str) -> (r: Result<(), String>)
    ensures
        r is Ok <==> ids::uuid_of(uuid@) is Some,
        r matches Err(m) ==> m@ == "Invalid format"@,
{
    match ids::uuid_parse(uuid) {
        Some(_) => Ok(()),
        None => Err(String::from_str("Invalid format")),
    }
}

pub struct RegisterRequest {
    pub name: String,
    pub email: String,
    pub password: String,
}

/// The registration input rules.
pub open spec fn register_request_valid(name: Seq<char>, email: Seq<char>, password: Seq<char>) -> bool {
    &&& 1 <= name.len() <= 100
    &&& email_valid_of(email)
    &&& password.len() >= 8
}

impl RegisterRequest {
    /// Checks the field rules, collecting one message per failing field.
    pub fn validate(&self) -> (r: Result<(), AppError>)
        ensures
            r is Ok <==> register_request_valid(self.name@, self.email@, self.password@),
            r matches Err(e) ==> e is ValidationError,
    {
        let mut errors: Vec<String> = Vec::new();
        let name_len = self.name.as_str().unicode_len();
        if name_len < 1 || name_len > 100 {
            errors.push(String::from_str("Name must be 1-100 characters"));
        }
        if !email_is_valid(self.email.as_str()) {
            errors.push(String::from_str("Invalid email format"));
        }
        if self.password.as_str().unicode_len() < 8 {
            errors.push(String::from_str("Password must be at least 8 characters"));
        }
        if errors.len() == 0 {
            Ok(())
        } else {
            Err(AppError::ValidationError(errors))
        }
    }
}

pub struct LoginRequest {
    pub email: String,
    pub password: String,
}

/// The login input rules.
pub open spec fn login_request_valid(email: Seq<char>, password: Seq<char>) -> bool {
    &&& email_valid_of(email)
    &&& password.len() >= 8
}

impl LoginRequest {
    pub fn validate(&self) -> (r: Result<(), AppError>)
        ensures
            r is Ok <==> login_request_valid(self.email@, self.password@),
            r matches Err(e) ==> e is ValidationError,
    {
        let mut errors: Vec<String> = Vec::new();
        if !email_is_valid(self.email.as_str()) {
            errors.push(String::from_str("Invalid email format"));
        }
        if self.password.as_str().unicode_len() < 8 {
            errors.push(String::from_str("Password must be at least 8 characters"));
        }
        if errors.len() == 0 {
            Ok(())
        } else {
            Err(AppError::ValidationError(errors))
        }
    }
}

pub struct RefreshRequest {
    pub refresh_token: String,
}

impl RefreshRequest {
    pub fn validate(&self) -> (r: Result<(), AppError>)
        ensures
            r is Ok <==> ids::uuid_of(self.refresh_token@) is Some,
            r matches Err(e) ==> e is ValidationError,
    {
        match validate_uuid(self.refresh_token.as_str()) {
            Ok(()) => Ok(()),
            Err(m) => {
                let mut errors: Vec<String> = Vec::new();
                errors.push(m);
                Err(AppError::ValidationError(errors))
            },
        }
    }
}

/// The token pair handed back by registration, login and refresh.
pub struct CredentialsResponse {
    pub access_token: String,
    pub refresh_token: String,
}

} // verus!
