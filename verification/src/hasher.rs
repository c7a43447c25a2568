//! The password hashing capability: one-way hashing with a fresh random salt
//! per call, and verification against a stored hash.
//!
//! What verification returns for a given password and stored hash is a
//! function of the two texts alone; it is named rather than spelled out. A
//! hash carries its own salt and parameters, so hashing is random but the
//! hash it returns verifies against the password it was made from.

use vstd::prelude::*;
use vstd::string::StringSliceAdditionalSpecFns;

use argon2::password_hash::rand_core::OsRng;
use argon2::password_hash::{Error, PasswordHash, SaltString};
use argon2::{PasswordHasher, PasswordVerifier};

use crate::errors::AppError;

verus! {

/// What verifying `password` against the stored hash text `phc` yields:
/// `Some(b)` when verification completes with outcome `b`, `None` when the
/// text is not a hash this hasher can check.
pub uninterp spec fn argon2_verify_of(password: Seq<u8>, phc: Seq<char>) -> Option<bool>;

/// The hasher, with the algorithm's default parameters.
pub struct Argon2PasswordHasher {
}

impl Default for Argon2PasswordHasher {
    fn default() -> (r: Self) {
        Argon2PasswordHasher {  }
    }
}

impl Argon2PasswordHasher {
    /// Relies on `argon2::Argon2::hash_password` (via the `PasswordHasher`
    /// trait) with a salt from `SaltString::generate`: on success the
    /// returned PHC text embeds the salt and parameters, and
    /// `Argon2::verify_password` accepts the same password against it.
    #[verifier::external_body]
    pub fn hash_password(&self, password: &str) -> (r: Result<String, AppError>)
        ensures
            match r {
                Ok(h) => argon2_verify_of(password.spec_bytes(), h@) == Some(true),
                Err(e) => e is PasswordHashingFailed,
            },
    {
        let salt = SaltString::generate(&mut OsRng);
        argon2::Argon2::default()
            .hash_password(password.as_bytes(), &salt)
            .map(|hash| hash.to_string())
            .map_err(|e| AppError::PasswordHashingFailed(e.to_string()))
    }

    /// Relies on `argon2::password_hash::PasswordHash::new` and
    /// `argon2::Argon2::verify_password` (via the `PasswordVerifier` trait):
    /// the outcome is computed from the password and the hash text alone —
    /// a mismatch is the `Password` error, any other failure means the text
    /// is not a hash this hasher can check.
    #[verifier::external_body]
    pub fn verify_password(&self, password: &str, hash: &str) -> (r: Result<bool, AppError>)
        ensures
            match argon2_verify_of(password.spec_bytes(), hash@) {
                Some(b) => r matches Ok(rb) && rb == b,
                None => r matches Err(e) && e is PasswordVerificationFailed,
            },
    {
        let parsed = PasswordHash::new(hash)
            .map_err(|e| AppError::PasswordVerificationFailed(e.to_string()))?;
        match argon2::Argon2::default().verify_password(password.as_bytes(), &parsed) {
            Ok(()) => Ok(true),
            Err(Error::Password) => Ok(false),
            Err(e) => Err(AppError::PasswordVerificationFailed(e.to_string())),
        }
    }
}

} // verus!
