//! Tests of the event payload codec, the publisher and dispatcher, the
//! request validation rules, the row conversion, and the error taxonomy.

use auth_core::entity::{map_user_row, UserEntity};
use auth_core::errors::{AppError, RepositoryError};
use auth_core::events::{
    decode_user_created, parse_user_created_payload, user_created_payload, user_created_topic,
    EventDispatcher, EventPublisher, UserCreated, WelcomeEmailHandler,
};
use auth_core::response::ApiSuccessResponse;
use auth_core::validate::{
    email_is_valid, validate_uuid, LoginRequest, RefreshRequest, RegisterRequest,
};

#[test]
fn event_payload_matches_serde_json() {
    let ev = UserCreated {
        user_id: 7,
        email: "we\"ird\\em@il\n.example".to_string(),
    };
    let payload = user_created_payload(&ev);
    let v: serde_json::Value = serde_json::from_slice(&payload).unwrap();
    assert_eq!(
        v.get("userId").unwrap().as_str().unwrap(),
        "00000000-0000-0000-0000-000000000007"
    );
    assert_eq!(
        v.get("email").unwrap().as_str().unwrap(),
        "we\"ird\\em@il\n.example"
    );
}

#[test]
fn event_payload_round_trip() {
    let ev = UserCreated {
        user_id: 42,
        email: "plain@example.com".to_string(),
    };
    let payload = user_created_payload(&ev);
    let (uid_b, email_b) = parse_user_created_payload(&payload).unwrap();
    assert_eq!(uid_b, b"00000000-0000-0000-0000-00000000002a".to_vec());
    assert_eq!(email_b, b"plain@example.com".to_vec());
    let decoded = decode_user_created(&payload).unwrap();
    assert_eq!(decoded.user_id, 42);
    assert_eq!(decoded.email, "plain@example.com");
    assert!(parse_user_created_payload(b"{\"x\":1}").is_none());
}

#[test]
fn publisher_records_messages() {
    let mut publisher = EventPublisher::new();
    assert_eq!(publisher.sent_count(), 0);
    let ev = UserCreated {
        user_id: 3,
        email: "ev@example.com".to_string(),
    };
    publisher.publish_user_created(ev).unwrap();
    assert_eq!(publisher.sent_count(), 1);
    assert_eq!(publisher.topic_at(0), "user.created");
    assert_eq!(publisher.key_at(0), "00000000-0000-0000-0000-000000000003");
    let v: serde_json::Value = serde_json::from_slice(publisher.payload_at(0)).unwrap();
    assert_eq!(v.get("email").unwrap().as_str().unwrap(), "ev@example.com");
}

#[test]
fn handler_accepts_wellformed_payload_only() {
    let handler = WelcomeEmailHandler::default();
    let ev = UserCreated {
        user_id: 8,
        email: "h@example.com".to_string(),
    };
    let payload = String::from_utf8(user_created_payload(&ev)).unwrap();
    assert!(handler.handle(&payload).is_ok());
    assert!(handler.handle("not a payload").is_err());
    // right shape, but an id no parser accepts: refused like the original's
    // typed deserialization
    assert!(handler
        .handle("{\"userId\":\"not-a-uuid\",\"email\":\"h@example.com\"}")
        .is_err());
}

#[test]
fn dispatcher_routes_by_exact_topic() {
    let mut dispatcher = EventDispatcher::new();
    let slot = dispatcher.register_handler(user_created_topic().to_string());
    assert_eq!(slot, 0);
    assert_eq!(dispatcher.route("user.created"), Some(0));
    assert_eq!(dispatcher.route("user.deleted"), None);
    assert_eq!(dispatcher.route("user.created.extra"), None);
    // registering a topic again replaces its handler: the latest wins
    let replacement = dispatcher.register_handler("user.created".to_string());
    assert_eq!(replacement, 1);
    assert_eq!(dispatcher.route("user.created"), Some(1));
}

#[test]
fn email_validation_rules() {
    assert!(email_is_valid("a@b.com"));
    assert!(!email_is_valid("not-an-email"));
    assert!(!email_is_valid(""));
    assert!(validate_uuid("11111111-2222-3333-4444-555555555555").is_ok());
    assert!(validate_uuid("nope").is_err());
}

#[test]
fn register_request_validation() {
    let good = RegisterRequest {
        name: "Alice".to_string(),
        email: "alice@example.com".to_string(),
        password: "password123".to_string(),
    };
    assert!(good.validate().is_ok());
    let bad = RegisterRequest {
        name: "".to_string(),
        email: "not-an-email".to_string(),
        password: "short".to_string(),
    };
    match bad.validate() {
        Err(AppError::ValidationError(msgs)) => {
            assert_eq!(msgs.len(), 3);
            assert_eq!(msgs[0], "Name must be 1-100 characters");
            assert_eq!(msgs[1], "Invalid email format");
            assert_eq!(msgs[2], "Password must be at least 8 characters");
        }
        other => panic!("expected a validation failure, got {:?}", other),
    }
    let long_name = RegisterRequest {
        name: "x".repeat(101),
        email: "alice@example.com".to_string(),
        password: "password123".to_string(),
    };
    assert!(long_name.validate().is_err());
}

#[test]
fn login_and_refresh_request_validation() {
    let login = LoginRequest {
        email: "a@b.com".to_string(),
        password: "password123".to_string(),
    };
    assert!(login.validate().is_ok());
    let login_bad = LoginRequest {
        email: "a@b.com".to_string(),
        password: "short".to_string(),
    };
    assert!(login_bad.validate().is_err());
    let refresh = RefreshRequest {
        refresh_token: "11111111-2222-3333-4444-555555555555".to_string(),
    };
    assert!(refresh.validate().is_ok());
    let refresh_bad = RefreshRequest {
        refresh_token: "not-a-token".to_string(),
    };
    assert!(refresh_bad.validate().is_err());
}

#[test]
fn row_conversion_parses_id_and_timestamps() {
    let created = "2024-01-02T03:04:05.123456";
    let expected = chrono::NaiveDateTime::parse_from_str(created, "%Y-%m-%dT%H:%M:%S.%f")
        .unwrap()
        .and_utc()
        .timestamp();
    let entity = UserEntity {
        id: "00000000-0000-0000-0000-000000000011".to_string(),
        email: "row@example.com".to_string(),
        password: "hash".to_string(),
        name: "Row".to_string(),
        created_at: created.to_string(),
        updated_at: created.to_string(),
    };
    let user = entity.to_domain().unwrap();
    assert_eq!(user.id(), 0x11);
    assert_eq!(user.email(), "row@example.com");
    assert_eq!(user.created_at(), expected);

    let bad_id = UserEntity {
        id: "zzz".to_string(),
        email: "row@example.com".to_string(),
        password: "hash".to_string(),
        name: "Row".to_string(),
        created_at: created.to_string(),
        updated_at: created.to_string(),
    };
    assert!(matches!(
        bad_id.to_domain(),
        Err(RepositoryError::InvalidUuidFormat)
    ));
    let bad_date = UserEntity {
        id: "00000000-0000-0000-0000-000000000011".to_string(),
        email: "row@example.com".to_string(),
        password: "hash".to_string(),
        name: "Row".to_string(),
        created_at: "yesterday".to_string(),
        updated_at: created.to_string(),
    };
    assert!(matches!(
        bad_date.to_domain(),
        Err(RepositoryError::ConversionError(_))
    ));
}

#[test]
fn row_mapping_requires_every_column() {
    let ok = map_user_row(
        Some("00000000-0000-0000-0000-000000000021".to_string()),
        Some("m@example.com".to_string()),
        Some("hash".to_string()),
        Some("M".to_string()),
        Some("2024-01-02T03:04:05.123456".to_string()),
        Some("2024-01-02T03:04:05.123456".to_string()),
    );
    assert_eq!(ok.unwrap().id(), 0x21);
    let missing = map_user_row(
        Some("00000000-0000-0000-0000-000000000021".to_string()),
        None,
        Some("hash".to_string()),
        Some("M".to_string()),
        Some("2024-01-02T03:04:05.123456".to_string()),
        Some("2024-01-02T03:04:05.123456".to_string()),
    );
    assert!(matches!(
        missing,
        Err(RepositoryError::ConversionError(_))
    ));
}

#[test]
fn error_status_codes_and_messages() {
    assert_eq!(
        AppError::EmailAlreadyExists("x@y.example".to_string()).status_code(),
        409
    );
    assert_eq!(AppError::UserNotFound.status_code(), 404);
    assert_eq!(AppError::Unauthorized.status_code(), 401);
    assert_eq!(AppError::InvalidToken.status_code(), 401);
    assert_eq!(AppError::TokenExpired.status_code(), 401);
    assert_eq!(
        AppError::ValidationError(vec!["m".to_string()]).status_code(),
        422
    );
    assert_eq!(
        AppError::PasswordHashingFailed("why".to_string()).status_code(),
        500
    );
    assert_eq!(
        AppError::EmailAlreadyExists("x@y.example".to_string()).message(),
        "Email x@y.example already exists"
    );
    assert_eq!(AppError::UserNotFound.message(), "User not found");
    assert_eq!(
        AppError::TokenParsingFailed("bad".to_string()).message(),
        "Token is invalid: bad"
    );
    let details = AppError::ValidationError(vec!["m".to_string()]).details().unwrap();
    assert_eq!(details, vec!["m".to_string()]);
    assert!(AppError::UserNotFound.details().is_none());
}

#[test]
fn success_envelope_wraps_data() {
    let wrapped = ApiSuccessResponse::new(41i32);
    assert_eq!(wrapped.data, 41);
}
