//! The user identity record.
//!
//! Ids are 128-bit values (carried on the wire in canonical hyphenated
//! text); timestamps are Unix seconds. The record is created once by
//! registration and read-only thereafter in this core.

use vstd::prelude::*;

use crate::ids;

verus! {

pub struct User {
    id: u128,
    email: String,
    password: String,
    name: String,
    created_at: i64,
    updated_at: i64,
}

impl Clone for User {
    fn clone(&self) -> (r: Self)
        ensures
            same_user(&r, self),
    {
        User {
            id: self.id,
            email: self.email.clone(),
            password: self.password.clone(),
            name: self.name.clone(),
            created_at: self.created_at,
            updated_at: self.updated_at,
        }
    }
}

/// Field-wise sameness of two records.
pub open spec fn same_user(a: &User, b: &User) -> bool {
    &&& a.spec_id() == b.spec_id()
    &&& a.spec_email() == b.spec_email()
    &&& a.spec_password() == b.spec_password()
    &&& a.spec_name() == b.spec_name()
    &&& a.spec_created_at() == b.spec_created_at()
    &&& a.spec_updated_at() == b.spec_updated_at()
}

impl User {
    pub closed spec fn spec_id(&self) -> u128 {
        self.id
    }

    pub closed spec fn spec_email(&self) -> Seq<char> {
        self.email@
    }

    pub closed spec fn spec_password(&self) -> Seq<char> {
        self.password@
    }

    pub closed spec fn spec_name(&self) -> Seq<char> {
        self.name@
    }

    pub closed spec fn spec_created_at(&self) -> i64 {
        self.created_at
    }

    pub closed spec fn spec_updated_at(&self) -> i64 {
        self.updated_at
    }

    /// A fresh record: a random id, both timestamps set to `now`.
    pub fn new(email: String, password: String, name: String, now: i64) -> (r: Self)
        ensures
            r.spec_email() == email@,
            r.spec_password() == password@,
            r.spec_name() == name@,
            r.spec_created_at() == now,
            r.spec_updated_at() == now,
    {
        let id = ids::new_uuid_bits();
        User { id, email, password, name, created_at: now, updated_at: now }
    }

    /// A record rebuilt from stored fields.
    pub fn from_db(
        id: u128,
        email: String,
        password: String,
        name: String,
        created_at: i64,
        updated_at: i64,
    ) -> (r: Self)
        ensures
            r.spec_id() == id,
            r.spec_email() == email@,
            r.spec_password() == password@,
            r.spec_name() == name@,
            r.spec_created_at() == created_at,
            r.spec_updated_at() == updated_at,
    {
        User { id, email, password, name, created_at, updated_at }
    }

    pub fn id(&self) -> (r: u128)
        ensures
            r == self.spec_id(),
    {
        self.id
    }

    pub fn email(&self) -> (r: &str)
        ensures
            r@ == self.spec_email(),
    {
        self.email.as_str()
    }

    pub fn password(&self) -> (r: &str)
        ensures
            r@ == self.spec_password(),
    {
        self.password.as_str()
    }

    pub fn name(&self) -> (r: &str)
        ensures
            r@ == self.spec_name(),
    {
        self.name.as_str()
    }

    pub fn created_at(&self) -> (r: i64)
        ensures
            r == self.spec_created_at(),
    {
        self.created_at
    }

    pub fn updated_at(&self) -> (r: i64)
        ensures
            r == self.spec_updated_at(),
    {
        self.updated_at
    }
}

} // verus!
