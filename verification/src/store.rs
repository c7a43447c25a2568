//! The user store: durable lookup and insert of user records.
//!
//! The store enforces email uniqueness at the storage layer, the guarantee
//! registration relies on under concurrency. Lookups by email are therefore
//! unambiguous; ids are assigned at creation and looked up by value.

use vstd::prelude::*;

use crate::errors::{RepositoryError, RepositoryResult};
use crate::user::{same_user, User};

verus! {

pub open spec fn has_email(s: Seq<User>, e: Seq<char>) -> bool {
    exists|i: int| 0 <= i < s.len() && s[i].spec_email() == e
}

pub open spec fn has_id(s: Seq<User>, id: u128) -> bool {
    exists|i: int| 0 <= i < s.len() && s[i].spec_id() == id
}

pub open spec fn emails_unique(s: Seq<User>) -> bool {
    forall|i: int, j: int|
        0 <= i < j < s.len() ==> s[i].spec_email() != s[j].spec_email()
}

/// The record holding an email; well-defined wherever emails are unique and
/// one of them matches.
pub open spec fn user_at_email(s: Seq<User>, e: Seq<char>) -> User {
    s[choose|i: int| 0 <= i < s.len() && s[i].spec_email() == e]
}

/// With unique emails, any matching index holds `user_at_email`.
pub proof fn lemma_user_at_email(s: Seq<User>, e: Seq<char>, i: int)
    requires
        emails_unique(s),
        0 <= i < s.len(),
        s[i].spec_email() == e,
    ensures
        has_email(s, e),
        user_at_email(s, e) == s[i],
{
    let j = choose|j: int| 0 <= j < s.len() && s[j].spec_email() == e;
    if j != i {
        if j < i {
            assert(s[j].spec_email() != s[i].spec_email());
        } else {
            assert(s[i].spec_email() != s[j].spec_email());
        }
    }
}

pub struct UserStore {
    users: Vec<User>,
}

impl UserStore {
    pub closed spec fn rows(&self) -> Seq<User> {
        self.users@
    }

    /// The storage-layer invariant: no two records share an email.
    pub open spec fn wf(&self) -> bool {
        emails_unique(self.rows())
    }

    pub fn new() -> (r: Self)
        ensures
            r.rows() == Seq::<User>::empty(),
            r.wf(),
    {
        UserStore { users: Vec::new() }
    }

    /// Inserts a record, refusing a duplicate email.
    pub fn create(&mut self, user: &User) -> (r: RepositoryResult<User>)
        requires
            old(self).wf(),
        ensures
            final(self).wf(),
            match r {
                Ok(u) => {
                    &&& !has_email(old(self).rows(), user.spec_email())
                    &&& final(self).rows().len() == old(self).rows().len() + 1
                    &&& forall|i: int|
                        0 <= i < old(self).rows().len() ==> final(self).rows()[i] == old(
                            self,
                        ).rows()[i]
                    &&& same_user(&final(self).rows()[old(self).rows().len() as int], user)
                    &&& same_user(&u, user)
                },
                Err(RepositoryError::EmailConflict) => {
                    &&& has_email(old(self).rows(), user.spec_email())
                    &&& final(self).rows() == old(self).rows()
                },
                Err(_) => false,
            },
    {
        if self.find_by_email_exists(user.email()) {
            return Err(RepositoryError::EmailConflict);
        }
        let stored = user.clone();
        self.users.push(stored);
        proof {
            let rows1 = self.users@;
            let rows0 = old(self).users@;
            assert(rows1.len() == rows0.len() + 1);
            assert(forall|i: int| 0 <= i < rows0.len() ==> rows1[i] == rows0[i]);
            assert(same_user(&rows1[rows0.len() as int], user));
            assert(emails_unique(rows1)) by {
                assert forall|i: int, j: int| 0 <= i < j < rows1.len() implies rows1[i].spec_email()
                    != rows1[j].spec_email() by {
                    if j == rows0.len() {
                        assert(rows1[i] == rows0[i]);
                        assert(!has_email(rows0, user.spec_email()));
                        assert(rows0[i].spec_email() != user.spec_email());
                    } else {
                        assert(rows1[i] == rows0[i] && rows1[j] == rows0[j]);
                    }
                }
            }
        }
        Ok(user.clone())
    }

    /// Whether a record with this email exists.
    fn find_by_email_exists(&self, email: &str) -> (r: bool)
        ensures
            r == has_email(self.rows(), email@),
    {
        let mut i: usize = 0;
        while i < self.users.len()
            invariant
                i <= self.users@.len(),
                forall|k: int| 0 <= k < i ==> self.users@[k].spec_email() != email@,
            decreases self.users.len() - i,
        {
            if crate::strutil::eq_str(self.users[i].email(), email) {
                proof {
                    assert(self.users@[i as int].spec_email() == email@);
                }
                return true;
            }
            i = i + 1;
        }
        proof {
            if has_email(self.rows(), email@) {
                let k = choose|k: int|
                    0 <= k < self.rows().len() && self.rows()[k].spec_email() == email@;
                assert(self.users@[k].spec_email() != email@);
            }
        }
        false
    }

    /// The record with this email, if any.
    pub fn find_by_email(&self, email: &str) -> (r: Option<User>)
        requires
            self.wf(),
        ensures
            match r {
                Some(u) => {
                    &&& has_email(self.rows(), email@)
                    &&& same_user(&u, &user_at_email(self.rows(), email@))
                },
                None => !has_email(self.rows(), email@),
            },
    {
        let mut i: usize = 0;
        while i < self.users.len()
            invariant
                i <= self.users@.len(),
                forall|k: int| 0 <= k < i ==> self.users@[k].spec_email() != email@,
                self.wf(),
            decreases self.users.len() - i,
        {
            if crate::strutil::eq_str(self.users[i].email(), email) {
                proof {
                    lemma_user_at_email(self.rows(), email@, i as int);
                }
                return Some(self.users[i].clone());
            }
            i = i + 1;
        }
        proof {
            if has_email(self.rows(), email@) {
                let k = choose|k: int|
                    0 <= k < self.rows().len() && self.rows()[k].spec_email() == email@;
                assert(self.users@[k].spec_email() != email@);
            }
        }
        None
    }

    /// The first record with this id, if any.
    pub fn find_by_id(&self, id: u128) -> (r: Option<User>)
        ensures
            match r {
                Some(u) => has_id(self.rows(), id) && u.spec_id() == id,
                None => !has_id(self.rows(), id),
            },
    {
        let mut i: usize = 0;
        while i < self.users.len()
            invariant
                i <= self.users@.len(),
                forall|k: int| 0 <= k < i ==> self.users@[k].spec_id() != id,
            decreases self.users.len() - i,
        {
            if self.users[i].id() == id {
                proof {
                    assert(self.users@[i as int].spec_id() == id);
                }
                return Some(self.users[i].clone());
            }
            i = i + 1;
        }
        proof {
            if has_id(self.rows(), id) {
                let k = choose|k: int|
                    0 <= k < self.rows().len() && self.rows()[k].spec_id() == id;
                assert(self.users@[k].spec_id() != id);
            }
        }
        None
    }
}

} // verus!
