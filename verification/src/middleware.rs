//! The per-request authentication check.
//!
//! A request carries a bearer token, which is decoded and held against the
//! blacklist and the user store; expired and revoked tokens are refused, and
//! every defect maps to the same unauthorized outcome. Failures of the
//! blacklist lookup fail closed.

use vstd::prelude::*;
use vstd::string::{StrSliceExecFns, StringSliceAdditionalSpecFns};
use vstd::utf8::{decode_utf8, encode_utf8, valid_utf8};

use crate::auth::AuthUseCase;
use crate::cache::{spec_blacklist_key, spec_live};
use crate::errors::AppError;
use crate::ids;
use crate::jwt::{spec_token_parts, Claims, JwtTokenProvider};
use crate::store::has_id;
use crate::user::User;
use crate::user_use_case::UserUseCase;

verus! {

/// Strips the bearer scheme from an authorization header value.
pub fn extract_bearer<'a>(auth_header: &'a str) -> (r: Option<&'a str>)
    ensures
        match r {
            Some(t) => auth_header@ == "Bearer "@ + t@,
            None => !(auth_header@.len() >= 7 && auth_header@.subrange(0, 7) == "Bearer "@),
        },
{
    let pat = "Bearer ";
    proof {
        reveal_strlit("Bearer ");
    }
    let n = auth_header.unicode_len();
    if n < 7 {
        return None;
    }
    let mut i: usize = 0;
    while i < 7
        invariant
            i <= 7,
            7 <= n == auth_header@.len(),
            pat@ == "Bearer "@,
            pat@.len() == 7,
            forall|k: int| 0 <= k < i ==> auth_header@[k] == pat@[k],
        decreases 7 - i,
    {
        if auth_header.get_char(i) != pat.get_char(i) {
            proof {
                if auth_header@.subrange(0, 7) == "Bearer "@ {
                    assert(auth_header@.subrange(0, 7)[i as int] == auth_header@[i as int]);
                }
            }
            return None;
        }
        i = i + 1;
    }
    let t = auth_header.substring_char(7, n);
    proof {
        assert(auth_header@.subrange(0, 7) =~= pat@);
        assert(auth_header@ =~= "Bearer "@ + t@);
    }
    Some(t)
}

/// Gates one request: decodes the bearer token, refuses blacklisted or
/// expired tokens, and loads the current user. Every defect is the same
/// unauthorized outcome, so a caller learns nothing about which check
/// failed.
pub fn authenticate(
    auth_use_case: &AuthUseCase,
    user_use_case: &UserUseCase,
    token_provider: &JwtTokenProvider,
    auth_header: Option<&str>,
    now: i64,
) -> (r: Result<(Claims, User), AppError>)
    ensures
        r is Err ==> r matches Err(AppError::Unauthorized),
        match auth_header {
            None => r is Err,
            Some(h) => if !(h@.len() >= 7 && h@.subrange(0, 7) == "Bearer "@) {
                r is Err
            } else {
                let tok = h@.subrange(7, h@.len() as int);
                match spec_token_parts(token_provider.secret_bytes(), encode_utf8(tok)) {
                    None => r is Err,
                    Some(parts) => if now > parts.3 {
                        r is Err
                    } else if !valid_utf8(parts.0) || !valid_utf8(parts.1) {
                        r is Err
                    } else if spec_live(
                        auth_use_case.cache(),
                        spec_blacklist_key(decode_utf8(parts.1)),
                        now as int,
                    ) is Some {
                        r is Err
                    } else {
                        match ids::uuid_of(decode_utf8(parts.0)) {
                            None => r is Err,
                            Some(uid) => if !has_id(user_use_case.users(), uid) {
                                r is Err
                            } else {
                                r matches Ok(p) && p.0.sub@ == decode_utf8(parts.0) && p.0.jti@
                                    == decode_utf8(parts.1) && p.0.iat == parts.2 && p.0.exp
                                    == parts.3 && p.1.spec_id() == uid
                            },
                        }
                    },
                }
            },
        },
{
    let h = match auth_header {
        Some(h) => h,
        None => {
            return Err(AppError::Unauthorized);
        },
    };
    let token = match extract_bearer(h) {
        Some(t) => t,
        None => {
            return Err(AppError::Unauthorized);
        },
    };
    proof {
        reveal_strlit("Bearer ");
        assert(h@.subrange(0, 7) =~= "Bearer "@);
        assert(h@.subrange(7, h@.len() as int) =~= token@);
    }
    let claims = match token_provider.decode_token(token, now) {
        Ok(c) => c,
        Err(_) => {
            return Err(AppError::Unauthorized);
        },
    };
    let blacklisted = match auth_use_case.is_blacklisted(claims.jti.as_str(), now) {
        Ok(b) => b,
        Err(_) => {
            return Err(AppError::Unauthorized);
        },
    };
    if blacklisted {
        return Err(AppError::Unauthorized);
    }
    let current_user = match user_use_case.get_user_by_id(claims.sub.as_str()) {
        Ok(Some(u)) => u,
        Ok(None) => {
            return Err(AppError::Unauthorized);
        },
        Err(_) => {
            return Err(AppError::Unauthorized);
        },
    };
    Ok((claims, current_user))
}

} // verus!
