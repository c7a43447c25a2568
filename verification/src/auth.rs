//! The authentication use case: registration, login, refresh rotation,
//! revocation, and the blacklist check.
//!
//! The service holds its collaborators — user store, token cache, password
//! hasher, token codec and event publisher — and orchestrates them. All
//! contracts are stated over the collaborators' models: the user rows, the
//! cache map, the publisher's log and the signing secret. The per-token-id
//! machine is monotonic: once an id is blacklisted or expired nothing here
//! makes it valid again.

use vstd::prelude::*;
use vstd::string::StringExecFns;
use vstd::utf8::encode_utf8;

use crate::cache::{spec_blacklist_key, spec_live, spec_refresh_key, AuthTokenCacheRepository};
use crate::errors::{AppError, AppResult};
use crate::events::{spec_user_created_json, EventPublisher, UserCreated};
use crate::hasher::{argon2_verify_of, Argon2PasswordHasher};
use crate::ids;
use crate::jwt::{spec_issued_token, JwtTokenProvider};
use crate::store::{
    emails_unique, has_email, has_id, lemma_user_at_email, user_at_email, UserStore,
};
use crate::user::User;

verus! {

/// Access tokens live fifteen minutes.
pub const ACCESS_TOKEN_TTL_SECS: i64 = 15 * 60;

/// Refresh tokens live seven days.
pub const REFRESH_TOKEN_TTL_SECS: i64 = 7 * 24 * 60 * 60;

pub struct AuthUseCase {
    user_repository: UserStore,
    token_cache_repository: AuthTokenCacheRepository,
    hasher: Argon2PasswordHasher,
    token_provider: JwtTokenProvider,
    event_publisher: EventPublisher,
}

/// Whether `t` is an access token issued for user `uid` over `secret` with
/// the given validity window.
pub open spec fn issued_for(secret: Seq<u8>, uid: u128, t: Seq<char>, iat: int, exp: int) -> bool {
    spec_issued_token(secret, encode_utf8(ids::uuid_str_of(uid)), t, iat, exp)
}

impl AuthUseCase {
    pub closed spec fn users(&self) -> Seq<User> {
        self.user_repository.rows()
    }

    pub closed spec fn cache(&self) -> Map<Seq<char>, (Seq<char>, int)> {
        self.token_cache_repository.contents()
    }

    pub closed spec fn events(&self) -> Seq<(Seq<char>, Seq<char>, Seq<u8>)> {
        self.event_publisher.sent_log()
    }

    pub closed spec fn secret(&self) -> Seq<u8> {
        self.token_provider.secret_bytes()
    }

    /// The storage invariant the service relies on: emails are unique.
    pub open spec fn wf(&self) -> bool {
        emails_unique(self.users())
    }

    pub fn new(
        user_repository: UserStore,
        token_cache_repository: AuthTokenCacheRepository,
        hasher: Argon2PasswordHasher,
        token_provider: JwtTokenProvider,
        event_publisher: EventPublisher,
    ) -> (r: Self)
        ensures
            r.users() == user_repository.rows(),
            r.cache() == token_cache_repository.contents(),
            r.events() == event_publisher.sent_log(),
            r.secret() == token_provider.secret_bytes(),
    {
        AuthUseCase {
            user_repository,
            token_cache_repository,
            hasher,
            token_provider,
            event_publisher,
        }
    }

    /// Registers a new account: refuses a taken email; otherwise hashes the
    /// password, stores the user, issues an access token, stores a fresh
    /// refresh token for seven days, and publishes the account-creation
    /// event (whose failure never fails registration).
    pub fn register(&mut self, email: String, password: String, name: String, now: i64) -> (r:
        AppResult<(String, String)>)
        requires
            old(self).wf(),
            0 <= now,
            now + REFRESH_TOKEN_TTL_SECS <= i64::MAX,
        ensures
            final(self).wf(),
            final(self).secret() == old(self).secret(),
            match r {
                Ok(tokens) => {
                    &&& !has_email(old(self).users(), email@)
                    &&& final(self).users().len() == old(self).users().len() + 1
                    &&& forall|i: int|
                        0 <= i < old(self).users().len() ==> final(self).users()[i] == old(
                            self,
                        ).users()[i]
                    &&& ({
                        let nu = final(self).users().last();
                        &&& nu.spec_email() == email@
                        &&& nu.spec_name() == name@
                        &&& nu.spec_created_at() == now
                        &&& nu.spec_updated_at() == now
                        &&& argon2_verify_of(encode_utf8(password@), nu.spec_password()) == Some(
                            true,
                        )
                        &&& issued_for(
                            old(self).secret(),
                            nu.spec_id(),
                            tokens.0@,
                            now as int,
                            now + ACCESS_TOKEN_TTL_SECS,
                        )
                        &&& (exists|rb: u128| tokens.1@ == ids::uuid_str_of(rb))
                        &&& ids::uuid_of(ids::uuid_str_of(nu.spec_id())) == Some(nu.spec_id())
                        &&& final(self).cache() == old(self).cache().insert(
                            spec_refresh_key(tokens.1@),
                            (ids::uuid_str_of(nu.spec_id()), now + REFRESH_TOKEN_TTL_SECS),
                        )
                        &&& final(self).events() =~= old(self).events().push(
                            (
                                "user.created"@,
                                ids::uuid_str_of(nu.spec_id()),
                                spec_user_created_json(nu.spec_id(), encode_utf8(email@)),
                            ),
                        )
                    })
                },
                Err(AppError::EmailAlreadyExists(e)) => {
                    &&& has_email(old(self).users(), email@)
                    &&& e@ == email@
                    &&& final(self).users() == old(self).users()
                    &&& final(self).cache() == old(self).cache()
                    &&& final(self).events() == old(self).events()
                },
                Err(AppError::PasswordHashingFailed(_)) => {
                    &&& !has_email(old(self).users(), email@)
                    &&& final(self).users() == old(self).users()
                    &&& final(self).cache() == old(self).cache()
                    &&& final(self).events() == old(self).events()
                },
                Err(_) => false,
            },
    {
        if let Some(_) = self.user_repository.find_by_email(email.as_str()) {
            return Err(AppError::EmailAlreadyExists(email));
        }
        let hashed_password = match self.hasher.hash_password(password.as_str()) {
            Ok(h) => h,
            Err(e) => {
                return Err(e);
            },
        };
        let user = User::new(email.clone(), hashed_password, name, now);
        let created_user = match self.user_repository.create(&user) {
            Ok(u) => u,
            Err(e) => {
                return Err(AppError::RepositoryError(e));
            },
        };
        let uid_text = ids::uuid_to_string(created_user.id());
        let access_token = match self.token_provider.generate_token(
            uid_text.as_str(),
            ACCESS_TOKEN_TTL_SECS,
            now,
        ) {
            Ok(t) => t,
            Err(e) => {
                return Err(e);
            },
        };
        let refresh_token = ids::new_id_string();
        self.token_cache_repository.store_refresh_token(
            created_user.id(),
            refresh_token.as_str(),
            REFRESH_TOKEN_TTL_SECS as u64,
            now,
        );
        let event = UserCreated {
            user_id: created_user.id(),
            email: String::from_str(created_user.email()),
        };
        let _ = self.event_publisher.publish_user_created(event);
        Ok((access_token, refresh_token))
    }

    /// Logs an account in: an unknown email is `UserNotFound`; a password
    /// that does not verify against the stored hash (or a hash that cannot
    /// be checked) is `Unauthorized`; otherwise a fresh token pair is
    /// issued, with the refresh token stored for seven days.
    pub fn login(&mut self, email: String, password: String, now: i64) -> (r: AppResult<
        (String, String),
    >)
        requires
            old(self).wf(),
            0 <= now,
            now + REFRESH_TOKEN_TTL_SECS <= i64::MAX,
        ensures
            final(self).wf(),
            final(self).users() == old(self).users(),
            final(self).events() == old(self).events(),
            final(self).secret() == old(self).secret(),
            match r {
                Ok(tokens) => {
                    &&& has_email(old(self).users(), email@)
                    &&& ({
                        let u = user_at_email(old(self).users(), email@);
                        &&& argon2_verify_of(encode_utf8(password@), u.spec_password()) == Some(
                            true,
                        )
                        &&& issued_for(
                            old(self).secret(),
                            u.spec_id(),
                            tokens.0@,
                            now as int,
                            now + ACCESS_TOKEN_TTL_SECS,
                        )
                        &&& (exists|rb: u128| tokens.1@ == ids::uuid_str_of(rb))
                        &&& ids::uuid_of(ids::uuid_str_of(u.spec_id())) == Some(u.spec_id())
                        &&& final(self).cache() == old(self).cache().insert(
                            spec_refresh_key(tokens.1@),
                            (ids::uuid_str_of(u.spec_id()), now + REFRESH_TOKEN_TTL_SECS),
                        )
                    })
                },
                Err(AppError::UserNotFound) => {
                    &&& !has_email(old(self).users(), email@)
                    &&& final(self).cache() == old(self).cache()
                },
                Err(AppError::Unauthorized) => {
                    &&& has_email(old(self).users(), email@)
                    &&& argon2_verify_of(
                        encode_utf8(password@),
                        user_at_email(old(self).users(), email@).spec_password(),
                    ) != Some(true)
                    &&& final(self).cache() == old(self).cache()
                },
                Err(_) => false,
            },
    {
        let user = match self.user_repository.find_by_email(email.as_str()) {
            Some(u) => u,
            None => {
                return Err(AppError::UserNotFound);
            },
        };
        let is_valid = match self.hasher.verify_password(password.as_str(), user.password()) {
            Ok(b) => b,
            Err(_) => {
                return Err(AppError::Unauthorized);
            },
        };
        if !is_valid {
            return Err(AppError::Unauthorized);
        }
        let uid_text = ids::uuid_to_string(user.id());
        let access_token = match self.token_provider.generate_token(
            uid_text.as_str(),
            ACCESS_TOKEN_TTL_SECS,
            now,
        ) {
            Ok(t) => t,
            Err(e) => {
                return Err(e);
            },
        };
        let refresh_token = ids::new_id_string();
        self.token_cache_repository.store_refresh_token(
            user.id(),
            refresh_token.as_str(),
            REFRESH_TOKEN_TTL_SECS as u64,
            now,
        );
        Ok((access_token, refresh_token))
    }

    /// Exchanges a live refresh token for a fresh access token. The same
    /// refresh token string is returned unchanged — it is not rotated and
    /// stays usable until its original expiry.
    pub fn refresh_token(&self, refresh_token: &str, now: i64) -> (r: AppResult<(String, String)>)
        requires
            0 <= now,
            now + ACCESS_TOKEN_TTL_SECS <= i64::MAX,
        ensures
            match spec_live(self.cache(), spec_refresh_key(refresh_token@), now as int) {
                None => r matches Err(AppError::InvalidToken),
                Some(val) => match ids::uuid_of(val) {
                    None => r matches Err(AppError::InvalidToken),
                    Some(uid) => if !has_id(self.users(), uid) {
                        r matches Err(AppError::UserNotFound)
                    } else {
                        r matches Ok(tokens) && tokens.1@ == refresh_token@ && issued_for(
                            self.secret(),
                            uid,
                            tokens.0@,
                            now as int,
                            now + ACCESS_TOKEN_TTL_SECS,
                        )
                    },
                },
            },
    {
        let user_id_str = match self.token_cache_repository.get_refresh_token(
            refresh_token,
            now,
        ) {
            Some(s) => s,
            None => {
                return Err(AppError::InvalidToken);
            },
        };
        let user_id = match ids::uuid_parse(user_id_str.as_str()) {
            Some(u) => u,
            None => {
                return Err(AppError::InvalidToken);
            },
        };
        let _user = match self.user_repository.find_by_id(user_id) {
            Some(u) => u,
            None => {
                return Err(AppError::UserNotFound);
            },
        };
        let uid_text = ids::uuid_to_string(user_id);
        let access_token = match self.token_provider.generate_token(
            uid_text.as_str(),
            ACCESS_TOKEN_TTL_SECS,
            now,
        ) {
            Ok(t) => t,
            Err(e) => {
                return Err(e);
            },
        };
        Ok((access_token, String::from_str(refresh_token)))
    }

    /// Revokes an access token by id for its remaining lifetime: with a
    /// future expiry a blacklist marker lives until exactly that expiry;
    /// with a past one nothing is written.
    pub fn revoke_token(&mut self, jti: &str, exp: i64, now: i64) -> (r: AppResult<()>)
        requires
            old(self).wf(),
            0 <= now,
        ensures
            final(self).wf(),
            final(self).users() == old(self).users(),
            final(self).events() == old(self).events(),
            final(self).secret() == old(self).secret(),
            r is Ok,
            exp > now ==> final(self).cache() == old(self).cache().insert(
                spec_blacklist_key(jti@),
                ("true"@, exp as int),
            ),
            exp <= now ==> final(self).cache() == old(self).cache(),
    {
        if exp > now {
            let ttl = exp - now;
            self.token_cache_repository.blacklist_access_token(jti, ttl as u64, now);
            proof {
                assert(now + (ttl as u64) == exp as int);
            }
        }
        Ok(())
    }

    /// Whether an access-token id is currently blacklisted.
    pub fn is_blacklisted(&self, jti: &str, now: i64) -> (r: AppResult<bool>)
        ensures
            r matches Ok(b) && b == (spec_live(
                self.cache(),
                spec_blacklist_key(jti@),
                now as int,
            ) is Some),
    {
        Ok(self.token_cache_repository.is_access_token_blacklisted(jti, now))
    }
}

/// Registration enables login: the state a successful registration of
/// `email` with `password` leaves behind keeps emails unique, holds a user
/// under that email, and that user's stored hash verifies against the same
/// password — exactly the conditions under which `login` takes its
/// successful path rather than `UserNotFound` or `Unauthorized`.
pub proof fn lemma_register_enables_login(
    rows0: Seq<User>,
    rows1: Seq<User>,
    email: Seq<char>,
    password: Seq<char>,
)
    requires
        emails_unique(rows0),
        !has_email(rows0, email),
        rows1.len() == rows0.len() + 1,
        forall|i: int| 0 <= i < rows0.len() ==> rows1[i] == rows0[i],
        rows1.last().spec_email() == email,
        argon2_verify_of(encode_utf8(password), rows1.last().spec_password()) == Some(true),
    ensures
        emails_unique(rows1),
        has_email(rows1, email),
        argon2_verify_of(encode_utf8(password), user_at_email(rows1, email).spec_password())
            == Some(true),
{
    assert(emails_unique(rows1)) by {
        assert forall|i: int, j: int| 0 <= i < j < rows1.len() implies rows1[i].spec_email()
            != rows1[j].spec_email() by {
            if j == rows1.len() - 1 {
                assert(rows1[i] == rows0[i]);
                assert(rows0[i].spec_email() != email);
            } else {
                assert(rows1[i] == rows0[i] && rows1[j] == rows0[j]);
            }
        }
    }
    lemma_user_at_email(rows1, email, rows1.len() - 1);
}

/// A revoked token id is blacklisted immediately and stays so until its
/// expiry: at every instant `t` before `expiry`, the marker written by
/// revocation is live.
pub proof fn lemma_revoke_blacklists(
    cache0: Map<Seq<char>, (Seq<char>, int)>,
    jti: Seq<char>,
    expiry: int,
    t: int,
)
    requires
        t < expiry,
    ensures
        spec_live(
            cache0.insert(spec_blacklist_key(jti), ("true"@, expiry)),
            spec_blacklist_key(jti),
            t,
        ) is Some,
{
}

/// Refreshing at any instant after the original issuance yields a different
/// access token: the two issue times differ, and a token's decomposition
/// recovers its issue time. At the very same instant the two tokens differ
/// only by their random token ids, of which nothing is promised.
pub proof fn lemma_refreshed_token_differs(
    secret: Seq<u8>,
    uid1: u128,
    uid2: u128,
    t1: Seq<char>,
    t2: Seq<char>,
    iat1: int,
    exp1: int,
    iat2: int,
    exp2: int,
)
    requires
        0 <= iat1 <= i64::MAX,
        0 <= exp1 <= i64::MAX,
        0 <= iat2 <= i64::MAX,
        0 <= exp2 <= i64::MAX,
        issued_for(secret, uid1, t1, iat1, exp1),
        issued_for(secret, uid2, t2, iat2, exp2),
        iat1 != iat2,
    ensures
        t1 != t2,
{
    crate::jwt::lemma_distinct_issue_times_distinct_tokens(
        secret,
        encode_utf8(ids::uuid_str_of(uid1)),
        encode_utf8(ids::uuid_str_of(uid2)),
        t1,
        t2,
        iat1,
        exp1,
        iat2,
        exp2,
    );
}

/// Storing a refresh token leaves every blacklist marker exactly as it was:
/// together with the write-only revocation flow, the per-token-id machine
/// never moves back from blacklisted to valid.
pub proof fn lemma_refresh_store_preserves_blacklist(
    cache0: Map<Seq<char>, (Seq<char>, int)>,
    token: Seq<char>,
    stored: (Seq<char>, int),
    jti: Seq<char>,
    t: int,
)
    ensures
        spec_live(
            cache0.insert(spec_refresh_key(token), stored),
            spec_blacklist_key(jti),
            t,
        ) == spec_live(cache0, spec_blacklist_key(jti), t),
{
    crate::cache::lemma_key_namespaces_disjoint(token, jti);
}

/// A refresh token stored by a successful registration or login keeps
/// resolving for its whole window: at every instant `t` before the stored
/// expiry, looking it up yields a value that parses back to exactly the user
/// id it was stored with.
pub proof fn lemma_refresh_token_live(
    cache0: Map<Seq<char>, (Seq<char>, int)>,
    token: Seq<char>,
    uid: u128,
    expiry: int,
    t: int,
)
    requires
        t < expiry,
        ids::uuid_of(ids::uuid_str_of(uid)) == Some(uid),
    ensures
        ({
            let stored = cache0.insert(spec_refresh_key(token), (ids::uuid_str_of(uid), expiry));
            &&& spec_live(stored, spec_refresh_key(token), t) == Some(ids::uuid_str_of(uid))
            &&& ids::uuid_of(spec_live(stored, spec_refresh_key(token), t)->0) == Some(uid)
        }),
{
}

} // verus!
