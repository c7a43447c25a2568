//! The persistence row shape of a user and its conversion to the domain
//! record.
//!
//! Rows arrive as plain column values: the id and the timestamps in their
//! database text forms. Conversion validates the id and parses the
//! timestamps; what a timestamp text denotes is a function of the text
//! alone, named and computed by the outside date library.

use vstd::prelude::*;
use vstd::string::StringExecFns;

use crate::errors::{RepositoryError, RepositoryResult};
use crate::ids;
use crate::user::User;

verus! {

/// The Unix seconds a database timestamp text (`%Y-%m-%dT%H:%M:%S.%f`)
/// denotes, if it parses.
pub uninterp spec fn mssql_datetime_of(s: Seq<char>) -> Option<i64>;

/// Relies on `chrono::NaiveDateTime::parse_from_str` with the
/// `%Y-%m-%dT%H:%M:%S.%f` format, `NaiveDateTime::and_utc` and
/// `DateTime::timestamp`: the outcome is a function of the text alone.
#[verifier::external_body]
pub fn parse_mssql_datetime(s: &str) -> (r: Option<i64>)
    ensures
        r == mssql_datetime_of(s@),
{
    chrono::NaiveDateTime::parse_from_str(s, "%Y-%m-%dT%H:%M:%S.%f")
        .ok()
        .map(|d| d.and_utc().timestamp())
}

/// A user row as read from persistence, with the id and timestamps still in
/// their text forms.
pub struct UserEntity {
    pub id: String,
    pub email: String,
    pub password: String,
    pub name: String,
    pub created_at: String,
    pub updated_at: String,
}

impl UserEntity {
    /// Converts the row to the domain record, rejecting a malformed id or
    /// timestamp.
    pub fn to_domain(self) -> (r: RepositoryResult<User>)
        ensures
            match ids::uuid_of(self.id@) {
                None => r matches Err(RepositoryError::InvalidUuidFormat),
                Some(uid) => match (
                    mssql_datetime_of(self.created_at@),
                    mssql_datetime_of(self.updated_at@),
                ) {
                    (Some(c), Some(u)) => {
                        &&& r matches Ok(user)
                        &&& user.spec_id() == uid
                        &&& user.spec_email() == self.email@
                        &&& user.spec_password() == self.password@
                        &&& user.spec_name() == self.name@
                        &&& user.spec_created_at() == c
                        &&& user.spec_updated_at() == u
                    },
                    _ => r matches Err(RepositoryError::ConversionError(_)),
                },
            },
    {
        let uid = match ids::uuid_parse(self.id.as_str()) {
            Some(u) => u,
            None => {
                return Err(RepositoryError::InvalidUuidFormat);
            },
        };
        let created_at = match parse_mssql_datetime(self.created_at.as_str()) {
            Some(c) => c,
            None => {
                return Err(
                    RepositoryError::ConversionError(String::from_str("invalid created_at")),
                );
            },
        };
        let updated_at = match parse_mssql_datetime(self.updated_at.as_str()) {
            Some(u) => u,
            None => {
                return Err(
                    RepositoryError::ConversionError(String::from_str("invalid updated_at")),
                );
            },
        };
        Ok(User::from_db(uid, self.email, self.password, self.name, created_at, updated_at))
    }
}

/// Builds a user row from optional column values, as a row mapper reads
/// them, then converts it: a missing column is a conversion failure.
pub fn map_user_row(
    id: Option<String>,
    email: Option<String>,
    password: Option<String>,
    name: Option<String>,
    created_at: Option<String>,
    updated_at: Option<String>,
) -> (r: RepositoryResult<User>)
    ensures
        match (id, email, password, name, created_at, updated_at) {
            (Some(i), Some(e), Some(p), Some(n), Some(c), Some(u)) => match ids::uuid_of(i@) {
                None => r matches Err(RepositoryError::InvalidUuidFormat),
                Some(uid) => match (mssql_datetime_of(c@), mssql_datetime_of(u@)) {
                    (Some(cs), Some(us)) => {
                        &&& r matches Ok(user)
                        &&& user.spec_id() == uid
                        &&& user.spec_email() == e@
                        &&& user.spec_password() == p@
                        &&& user.spec_name() == n@
                        &&& user.spec_created_at() == cs
                        &&& user.spec_updated_at() == us
                    },
                    _ => r matches Err(RepositoryError::ConversionError(_)),
                },
            },
            _ => r matches Err(RepositoryError::ConversionError(_)),
        },
{
    let id_v = match id {
        Some(v) => v,
        None => {
            return Err(RepositoryError::ConversionError(String::from_str("Missing id column")));
        },
    };
    let email_v = match email {
        Some(v) => v,
        None => {
            return Err(
                RepositoryError::ConversionError(String::from_str("Missing email column")),
            );
        },
    };
    let password_v = match password {
        Some(v) => v,
        None => {
            return Err(
                RepositoryError::ConversionError(String::from_str("Missing password column")),
            );
        },
    };
    let name_v = match name {
        Some(v) => v,
        None => {
            return Err(
                RepositoryError::ConversionError(String::from_str("Missing name column")),
            );
        },
    };
    let created_v = match created_at {
        Some(v) => v,
        None => {
            return Err(
                RepositoryError::ConversionError(String::from_str("Missing created_at column")),
            );
        },
    };
    let updated_v = match updated_at {
        Some(v) => v,
        None => {
            return Err(
                RepositoryError::ConversionError(String::from_str("Missing updated_at column")),
            );
        },
    };
    let entity = UserEntity {
        id: id_v,
        email: email_v,
        password: password_v,
        name: name_v,
        created_at: created_v,
        updated_at: updated_v,
    };
    entity.to_domain()
}

} // verus!
