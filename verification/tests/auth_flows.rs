//! Tests of the authentication flows: registration, login, refresh,
//! revocation, the blacklist check, the stores behind them, and the
//! request gate.

use auth_core::auth::AuthUseCase;
use auth_core::cache::AuthTokenCacheRepository;
use auth_core::errors::{AppError, RepositoryError};
use auth_core::events::EventPublisher;
use auth_core::hasher::Argon2PasswordHasher;
use auth_core::jwt::JwtTokenProvider;
use auth_core::middleware::{authenticate, extract_bearer};
use auth_core::store::UserStore;
use auth_core::user::User;
use auth_core::user_use_case::UserUseCase;

fn service(secret: &str) -> AuthUseCase {
    AuthUseCase::new(
        UserStore::new(),
        AuthTokenCacheRepository::new(),
        Argon2PasswordHasher::default(),
        JwtTokenProvider::new(secret),
        EventPublisher::new(),
    )
}

const NOW: i64 = 1_700_000_000;

#[test]
fn register_then_login_succeeds() {
    let mut auth = service("s3cret");
    let tokens = auth
        .register(
            "alice@example.com".to_string(),
            "password123".to_string(),
            "Alice".to_string(),
            NOW,
        )
        .unwrap();
    assert!(!tokens.0.is_empty() && !tokens.1.is_empty());
    let again = auth
        .login(
            "alice@example.com".to_string(),
            "password123".to_string(),
            NOW + 5,
        )
        .unwrap();
    assert_ne!(again.0, tokens.0);
}

#[test]
fn register_duplicate_email_fails_without_mutation() {
    let mut auth = service("s3cret");
    let first = auth
        .register(
            "bob@example.com".to_string(),
            "password123".to_string(),
            "Bob".to_string(),
            NOW,
        )
        .unwrap();
    let second = auth.register(
        "bob@example.com".to_string(),
        "otherpassword".to_string(),
        "Imposter".to_string(),
        NOW + 1,
    );
    assert!(matches!(second, Err(AppError::EmailAlreadyExists(e)) if e == "bob@example.com"));
    // the original account is untouched: its password still logs in and its
    // refresh token still refreshes
    assert!(auth
        .login(
            "bob@example.com".to_string(),
            "password123".to_string(),
            NOW + 2
        )
        .is_ok());
    assert!(auth.refresh_token(&first.1, NOW + 2).is_ok());
}

#[test]
fn login_wrong_password_and_unknown_email() {
    let mut auth = service("s3cret");
    auth.register(
        "carol@example.com".to_string(),
        "password123".to_string(),
        "Carol".to_string(),
        NOW,
    )
    .unwrap();
    let wrong = auth.login(
        "carol@example.com".to_string(),
        "not-the-password".to_string(),
        NOW + 1,
    );
    assert!(matches!(wrong, Err(AppError::Unauthorized)));
    let unknown = auth.login(
        "nobody@example.com".to_string(),
        "password123".to_string(),
        NOW + 1,
    );
    assert!(matches!(unknown, Err(AppError::UserNotFound)));
}

#[test]
fn refresh_unknown_and_valid() {
    let mut auth = service("s3cret");
    let provider = JwtTokenProvider::new("s3cret");
    assert!(matches!(
        auth.refresh_token("11111111-2222-3333-4444-555555555555", NOW),
        Err(AppError::InvalidToken)
    ));
    let (a1, r1) = auth
        .register(
            "dora@example.com".to_string(),
            "password123".to_string(),
            "Dora".to_string(),
            NOW,
        )
        .unwrap();
    let (a2, r2) = auth.refresh_token(&r1, NOW + 10).unwrap();
    assert_eq!(r2, r1);
    assert_ne!(a2, a1);
    let c1 = provider.decode_token(&a1, NOW + 10).unwrap();
    let c2 = provider.decode_token(&a2, NOW + 10).unwrap();
    assert_eq!(c1.sub, c2.sub);
    // expired refresh token: past the seven-day window it is gone
    let week = 7 * 24 * 60 * 60;
    assert!(matches!(
        auth.refresh_token(&r1, NOW + week + 1),
        Err(AppError::InvalidToken)
    ));
}

#[test]
fn revoke_blacklists_until_expiry() {
    let mut auth = service("s3cret");
    auth.revoke_token("some-jti", NOW + 100, NOW).unwrap();
    assert!(auth.is_blacklisted("some-jti", NOW).unwrap());
    assert!(auth.is_blacklisted("some-jti", NOW + 99).unwrap());
    // the marker expires with the token itself
    assert!(!auth.is_blacklisted("some-jti", NOW + 100).unwrap());
    // revoking with a past expiry writes nothing
    auth.revoke_token("other-jti", NOW - 5, NOW).unwrap();
    assert!(!auth.is_blacklisted("other-jti", NOW).unwrap());
}

#[test]
fn concrete_scenario_register_refresh_revoke() {
    let provider = JwtTokenProvider::new("scenario-secret");
    let mut auth = AuthUseCase::new(
        UserStore::new(),
        AuthTokenCacheRepository::new(),
        Argon2PasswordHasher::default(),
        provider.clone(),
        EventPublisher::new(),
    );
    let (a1, r1) = auth
        .register(
            "alice@example.com".to_string(),
            "password123".to_string(),
            "Alice".to_string(),
            NOW,
        )
        .unwrap();
    let (a2, r1b) = auth.refresh_token(&r1, NOW + 10).unwrap();
    assert_eq!(r1b, r1);
    assert_ne!(a2, a1);
    let c2 = provider.decode_token(&a2, NOW + 10).unwrap();
    auth.revoke_token(&c2.jti, c2.exp, NOW + 20).unwrap();
    assert!(auth.is_blacklisted(&c2.jti, NOW + 21).unwrap());
    let c1 = provider.decode_token(&a1, NOW + 21).unwrap();
    assert!(!auth.is_blacklisted(&c1.jti, NOW + 21).unwrap());

    // a hypothetical authenticated call: one bearing the revoked token is
    // rejected, one bearing the other token still passes until it expires
    let uid = uuid::Uuid::parse_str(&c1.sub).unwrap().as_u128();
    let mut store = UserStore::new();
    store
        .create(&User::from_db(
            uid,
            "alice@example.com".to_string(),
            "stored-hash".to_string(),
            "Alice".to_string(),
            NOW,
            NOW,
        ))
        .unwrap();
    let users = UserUseCase::new(store);
    let h2 = format!("Bearer {}", a2);
    assert!(matches!(
        authenticate(&auth, &users, &provider, Some(&h2), NOW + 22),
        Err(AppError::Unauthorized)
    ));
    let h1 = format!("Bearer {}", a1);
    assert!(authenticate(&auth, &users, &provider, Some(&h1), NOW + 22).is_ok());
    assert!(matches!(
        authenticate(&auth, &users, &provider, Some(&h1), NOW + 901),
        Err(AppError::Unauthorized)
    ));
}

#[test]
fn store_enforces_email_uniqueness() {
    let mut store = UserStore::new();
    let u1 = User::new(
        "eve@example.com".to_string(),
        "hash-1".to_string(),
        "Eve".to_string(),
        NOW,
    );
    let created = store.create(&u1).unwrap();
    assert_eq!(created.email(), "eve@example.com");
    let u2 = User::new(
        "eve@example.com".to_string(),
        "hash-2".to_string(),
        "Evil Eve".to_string(),
        NOW,
    );
    assert!(matches!(
        store.create(&u2),
        Err(RepositoryError::EmailConflict)
    ));
    let found = store.find_by_email("eve@example.com").unwrap();
    assert_eq!(found.name(), "Eve");
    assert!(store.find_by_email("nobody@example.com").is_none());
    assert!(store.find_by_id(found.id()).is_some());
    assert!(store.find_by_id(found.id().wrapping_add(1)).is_none());
}

#[test]
fn cache_entries_expire_and_overwrite() {
    let mut cache = AuthTokenCacheRepository::new();
    cache.store_refresh_token(9, "tok-1", 60, 100);
    assert_eq!(
        cache.get_refresh_token("tok-1", 159).unwrap(),
        "00000000-0000-0000-0000-000000000009"
    );
    assert!(cache.get_refresh_token("tok-1", 160).is_none());
    assert!(cache.get_refresh_token("tok-2", 100).is_none());
    // silent overwrite maps the key to the newer user id
    cache.store_refresh_token(10, "tok-1", 60, 100);
    assert_eq!(
        cache.get_refresh_token("tok-1", 101).unwrap(),
        "00000000-0000-0000-0000-00000000000a"
    );
    cache.blacklist_access_token("jti-1", 30, 100);
    assert!(cache.is_access_token_blacklisted("jti-1", 129));
    assert!(!cache.is_access_token_blacklisted("jti-1", 130));
    assert!(!cache.is_access_token_blacklisted("jti-2", 100));
    assert_eq!(
        AuthTokenCacheRepository::refresh_key("abc"),
        "auth:refresh:abc"
    );
    assert_eq!(
        AuthTokenCacheRepository::blacklist_key("abc"),
        "auth:blacklist:abc"
    );
}

#[test]
fn user_use_case_lookup() {
    let mut store = UserStore::new();
    let user = User::new(
        "frank@example.com".to_string(),
        "hash".to_string(),
        "Frank".to_string(),
        NOW,
    );
    store.create(&user).unwrap();
    let id_text = uuid::Uuid::from_u128(user.id()).to_string();
    let users = UserUseCase::new(store);
    assert!(users.get_user_by_id(&id_text).unwrap().is_some());
    assert!(users
        .get_user_by_id("99999999-9999-9999-9999-999999999999")
        .unwrap()
        .is_none());
    assert!(matches!(
        users.get_user_by_id("not-a-uuid"),
        Err(AppError::RepositoryError(RepositoryError::InvalidUuidFormat))
    ));
}

#[test]
fn bearer_extraction() {
    assert_eq!(extract_bearer("Bearer abc.def.ghi"), Some("abc.def.ghi"));
    assert_eq!(extract_bearer("Basic abc"), None);
    assert_eq!(extract_bearer("Bearer"), None);
    assert_eq!(extract_bearer(""), None);
    assert_eq!(extract_bearer("Bearer "), Some(""));
}

#[test]
fn authenticate_requires_header_and_known_user() {
    let provider = JwtTokenProvider::new("gate-secret");
    let auth = service("gate-secret");
    let users = UserUseCase::new(UserStore::new());
    assert!(matches!(
        authenticate(&auth, &users, &provider, None, NOW),
        Err(AppError::Unauthorized)
    ));
    // a valid token whose subject no store knows is refused
    let token = provider.generate_token("ghost", 900, NOW).unwrap();
    let h = format!("Bearer {}", token);
    assert!(matches!(
        authenticate(&auth, &users, &provider, Some(&h), NOW),
        Err(AppError::Unauthorized)
    ));
}
