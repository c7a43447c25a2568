//! Tests of the byte codecs and the token codec: base64url vectors, JSON
//! number and string parsing, claims round trips, and interoperability of
//! issued tokens with the jsonwebtoken crate.

use auth_core::b64::{b64_decode, b64_encode};
use auth_core::errors::AppError;
use auth_core::hasher::Argon2PasswordHasher;
use auth_core::ids::{uuid_parse, uuid_to_string};
use auth_core::json::{parse_int_at, parse_string_at};
use auth_core::jwt::{claims_json, parse_claims, JwtTokenProvider};

#[test]
fn b64_known_vectors() {
    assert_eq!(b64_encode(b"Man"), b"TWFu".to_vec());
    assert_eq!(b64_encode(b"Ma"), b"TWE".to_vec());
    assert_eq!(b64_encode(b"M"), b"TQ".to_vec());
    assert_eq!(b64_encode(b""), Vec::<u8>::new());
    assert_eq!(b64_encode(&[0xfb, 0xff]), b"-_8".to_vec());
}

#[test]
fn b64_decode_inverts_encode() {
    let inputs: Vec<Vec<u8>> = vec![
        vec![],
        vec![0],
        vec![255],
        vec![1, 2],
        vec![1, 2, 3],
        vec![1, 2, 3, 4],
        b"the quick brown fox".to_vec(),
    ];
    for input in inputs {
        let enc = b64_encode(&input);
        assert_eq!(b64_decode(&enc), Some(input));
    }
}

#[test]
fn b64_decode_rejects_bad_input() {
    assert_eq!(b64_decode(b"T"), None);
    assert_eq!(b64_decode(b"TQ=="), None);
    assert_eq!(b64_decode(b"T!Fu"), None);
    // non-canonical trailing bits
    assert_eq!(b64_decode(b"ab"), None);
    assert_eq!(b64_decode(b"aQ"), Some(vec![0x69]));
}

#[test]
fn parse_int_reads_decimal() {
    let s = b"123,rest";
    assert_eq!(parse_int_at(s, 0), Some((123, 3)));
    let neg = b"-45}";
    assert_eq!(parse_int_at(neg, 0), Some((-45, 3)));
    assert_eq!(parse_int_at(b"x1", 0), None);
    assert_eq!(parse_int_at(b"-", 0), None);
    assert_eq!(parse_int_at(b"99999999999999999999", 0), None);
    assert_eq!(
        parse_int_at(b"9223372036854775807", 0),
        Some((i64::MAX, 19))
    );
}

#[test]
fn parse_string_handles_escapes() {
    let s = "ab\\\"c\\\\d\\ne\" tail".as_bytes();
    let (content, end) = parse_string_at(s, 0).unwrap();
    assert_eq!(content, b"ab\"c\\d\ne".to_vec());
    assert_eq!(&s[end..], b" tail");
    // unterminated
    assert_eq!(parse_string_at(b"abc", 0), None);
    // control escape
    let u = "\\u0001\"".as_bytes();
    assert_eq!(parse_string_at(u, 0).unwrap().0, vec![1u8]);
}

#[test]
fn claims_round_trip_concrete() {
    let cj = claims_json(b"user-1", b"token-9", 10, 20);
    assert_eq!(
        String::from_utf8(cj.clone()).unwrap(),
        "{\"sub\":\"user-1\",\"jti\":\"token-9\",\"iat\":10,\"exp\":20}"
    );
    let (sub, jti, iat, exp) = parse_claims(&cj).unwrap();
    assert_eq!(sub, b"user-1".to_vec());
    assert_eq!(jti, b"token-9".to_vec());
    assert_eq!(iat, 10);
    assert_eq!(exp, 20);
    assert_eq!(parse_claims(b"{\"nope\":1}"), None);
}

#[test]
fn uuid_text_round_trip() {
    let s = uuid_to_string(5);
    assert_eq!(s, "00000000-0000-0000-0000-000000000005");
    assert_eq!(uuid_parse(&s), Some(5));
    assert_eq!(uuid_parse("not-a-uuid"), None);
}

#[test]
fn issued_token_decodes_with_matching_window() {
    let provider = JwtTokenProvider::new("unit-secret");
    let now: i64 = 1_700_000_000;
    let token = provider.generate_token("subject-1", 900, now).unwrap();
    let claims = provider.decode_token(&token, now).unwrap();
    assert_eq!(claims.sub, "subject-1");
    assert_eq!(claims.iat, now);
    assert_eq!(claims.exp - claims.iat, 900);
    // still decodes at the expiry instant, fails after it
    assert!(provider.decode_token(&token, now + 900).is_ok());
    assert!(matches!(
        provider.decode_token(&token, now + 901),
        Err(AppError::TokenExpired)
    ));
}

#[test]
fn decode_rejects_tampering_and_garbage() {
    let provider = JwtTokenProvider::new("unit-secret");
    let now: i64 = 1_700_000_000;
    let token = provider.generate_token("subject-1", 900, now).unwrap();
    // flip a payload character
    let mut chars: Vec<char> = token.chars().collect();
    let dot = token.find('.').unwrap();
    chars[dot + 1] = if chars[dot + 1] == 'A' { 'B' } else { 'A' };
    let tampered: String = chars.into_iter().collect();
    assert!(matches!(
        provider.decode_token(&tampered, now),
        Err(AppError::TokenParsingFailed(_))
    ));
    assert!(matches!(
        provider.decode_token("garbage", now),
        Err(AppError::TokenParsingFailed(_))
    ));
    assert!(matches!(
        provider.decode_token("a.b.c", now),
        Err(AppError::TokenParsingFailed(_))
    ));
    // a different secret refuses the signature
    let other = JwtTokenProvider::new("another-secret");
    assert!(matches!(
        other.decode_token(&token, now),
        Err(AppError::TokenParsingFailed(_))
    ));
}

#[test]
fn issued_token_verifies_under_jsonwebtoken() {
    let provider = JwtTokenProvider::new("interop-secret");
    let now = chrono::Utc::now().timestamp();
    let token = provider.generate_token("interop-user", 900, now).unwrap();
    let key = jsonwebtoken::DecodingKey::from_secret("interop-secret".as_bytes());
    let validation = jsonwebtoken::Validation::new(jsonwebtoken::Algorithm::HS256);
    let data = jsonwebtoken::decode::<serde_json::Value>(&token, &key, &validation).unwrap();
    assert_eq!(
        data.claims.get("sub").unwrap().as_str().unwrap(),
        "interop-user"
    );
    let iat = data.claims.get("iat").unwrap().as_i64().unwrap();
    let exp = data.claims.get("exp").unwrap().as_i64().unwrap();
    assert_eq!(exp - iat, 900);
    assert!(data.claims.get("jti").unwrap().as_str().is_some());
}

#[test]
fn hash_then_verify_succeeds() {
    let hasher = Argon2PasswordHasher::default();
    let hash = hasher.hash_password("correct horse").unwrap();
    assert!(hash.starts_with("$argon2"));
    assert_eq!(hasher.verify_password("correct horse", &hash).unwrap(), true);
    assert_eq!(hasher.verify_password("wrong horse", &hash).unwrap(), false);
    assert!(matches!(
        hasher.verify_password("anything", "not-a-phc-string"),
        Err(AppError::PasswordVerificationFailed(_))
    ));
}
