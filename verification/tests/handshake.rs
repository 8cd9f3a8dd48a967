use chat_relay::handshake::{authenticate, extract_token, HandshakeOutcome, HandshakeRejection, TokenExtraction};
use chat_relay::token::{generate_jwt, get_jwt};
use jwt_compact::alg::{Hs256, Hs256Key};
use jwt_compact::AlgorithmExt;

fn test_key() -> Hs256Key {
    Hs256Key::new(b"a test signing key, long enough to be taken seriously")
}

/// A token signed with `key` whose expiry lies `expires_in_hours` from now.
fn signed_token(key: &Hs256Key, user_id: &str, expires_in_hours: i64) -> String {
    let mut custom = std::collections::BTreeMap::new();
    custom.insert("user_id".to_string(), user_id.to_string());
    let now = chrono::Utc::now();
    let mut claims = jwt_compact::Claims::new(custom);
    claims.expiration = Some(now + chrono::Duration::hours(expires_in_hours));
    claims.not_before = Some(now - chrono::Duration::hours(1));
    Hs256.token(&jwt_compact::Header::empty(), &claims, key).unwrap()
}

#[test]
fn extract_token_decodes_its_value() {
    assert!(matches!(
        extract_token(b"access_token=a%2Bb+c"),
        TokenExtraction::Found(v) if v == b"a+b c".to_vec()
    ));
}

#[test]
fn extract_token_last_occurrence_wins() {
    assert!(matches!(
        extract_token(b"access_token=first&x=1&access_token=second"),
        TokenExtraction::Found(v) if v == b"second".to_vec()
    ));
}

#[test]
fn extract_token_missing_and_malformed() {
    assert!(matches!(extract_token(b"foo=bar&baz=1"), TokenExtraction::Missing));
    assert!(matches!(extract_token(b""), TokenExtraction::Missing));
    assert!(matches!(extract_token(b"foo=%zz"), TokenExtraction::Malformed));
    assert!(matches!(extract_token(b"access_token=%4"), TokenExtraction::Malformed));
}

#[test]
fn no_query_is_unauthenticated_401() {
    let key = test_key();
    match authenticate(None, &key) {
        HandshakeOutcome::Rejected(why) => {
            assert!(matches!(why, HandshakeRejection::Unauthenticated));
            assert_eq!(why.status(), 401);
        }
        HandshakeOutcome::Admitted(_) => panic!("admitted without a query"),
    }
}

#[test]
fn no_token_parameter_is_unauthenticated_401() {
    let key = test_key();
    let q = b"user=alice&mode=chat".to_vec();
    match authenticate(Some(&q), &key) {
        HandshakeOutcome::Rejected(why) => assert_eq!(why.status(), 401),
        HandshakeOutcome::Admitted(_) => panic!("admitted without a token"),
    }
}

#[test]
fn unparsable_query_is_bad_request_400() {
    let key = test_key();
    let q = b"access_token=%g1".to_vec();
    match authenticate(Some(&q), &key) {
        HandshakeOutcome::Rejected(why) => {
            assert!(matches!(why, HandshakeRejection::BadRequest));
            assert_eq!(why.status(), 400);
        }
        HandshakeOutcome::Admitted(_) => panic!("admitted a malformed query"),
    }
}

#[test]
fn expired_token_is_unauthenticated_401() {
    let key = test_key();
    let token = signed_token(&key, "alice", -2);
    let q = format!("access_token={token}").into_bytes();
    match authenticate(Some(&q), &key) {
        HandshakeOutcome::Rejected(why) => assert_eq!(why.status(), 401),
        HandshakeOutcome::Admitted(_) => panic!("admitted an expired token"),
    }
}

#[test]
fn token_signed_with_another_key_is_unauthenticated_401() {
    let key = test_key();
    let other = Hs256Key::new(b"an entirely different signing key, also long enough");
    let token = signed_token(&other, "alice", 2);
    let q = format!("access_token={token}").into_bytes();
    match authenticate(Some(&q), &key) {
        HandshakeOutcome::Rejected(why) => assert_eq!(why.status(), 401),
        HandshakeOutcome::Admitted(_) => panic!("admitted a forged token"),
    }
}

#[test]
fn valid_token_is_admitted_with_its_identity() {
    let key = test_key();
    let token = generate_jwt(&key, "alice").unwrap();
    let q = format!("chan=1&access_token={token}").into_bytes();
    match authenticate(Some(&q), &key) {
        HandshakeOutcome::Admitted(id) => assert_eq!(id, b"alice".to_vec()),
        HandshakeOutcome::Rejected(why) => panic!("rejected a valid token with {}", why.status()),
    }
}

#[test]
fn issued_tokens_verify_back_to_their_identity() {
    let key = test_key();
    let token = generate_jwt(&key, "carol").unwrap();
    assert_eq!(get_jwt(&token, &key).unwrap(), "carol");
    assert!(get_jwt("not a token", &key).is_err());
}
