//! The user use case: profile lookup and record creation over the store.

use vstd::prelude::*;

use crate::errors::{AppError, AppResult, RepositoryError};
use crate::ids;
use crate::store::{has_email, has_id, UserStore};
use crate::user::{same_user, User};

verus! {

pub struct UserUseCase {
    user_repository: UserStore,
}

impl UserUseCase {
    pub closed spec fn users(&self) -> Seq<User> {
        self.user_repository.rows()
    }

    pub open spec fn wf(&self) -> bool {
        crate::store::emails_unique(self.users())
    }

    pub fn new(user_repository: UserStore) -> (r: Self)
        ensures
            r.users() == user_repository.rows(),
    {
        UserUseCase { user_repository }
    }

    /// Looks a user up by the text form of an id: a malformed id is a
    /// repository failure, an unknown one is an empty result.
    pub fn get_user_by_id(&self, id: &str) -> (r: AppResult<Option<User>>)
        ensures
            match ids::uuid_of(id@) {
                None => r matches Err(AppError::RepositoryError(RepositoryError::InvalidUuidFormat)),
                Some(uid) => match r {
                    Ok(opt) => match opt {
                        Some(u) => has_id(self.users(), uid) && u.spec_id() == uid,
                        None => !has_id(self.users(), uid),
                    },
                    Err(_) => false,
                },
            },
    {
        let uid = match ids::uuid_parse(id) {
            Some(u) => u,
            None => {
                return Err(AppError::RepositoryError(RepositoryError::InvalidUuidFormat));
            },
        };
        Ok(self.user_repository.find_by_id(uid))
    }

    /// Creates a record, surfacing the store's uniqueness refusal.
    pub fn create(&mut self, user: &User) -> (r: AppResult<User>)
        requires
            old(self).wf(),
        ensures
            final(self).wf(),
            match r {
                Ok(u) => {
                    &&& !has_email(old(self).users(), user.spec_email())
                    &&& final(self).users().len() == old(self).users().len() + 1
                    &&& same_user(&u, user)
                },
                Err(AppError::RepositoryError(RepositoryError::EmailConflict)) => {
                    &&& has_email(old(self).users(), user.spec_email())
                    &&& final(self).users() == old(self).users()
                },
                Err(_) => false,
            },
    {
        match self.user_repository.create(user) {
            Ok(u) => Ok(u),
            Err(e) => Err(AppError::RepositoryError(e)),
        }
    }
}

} // verus!
