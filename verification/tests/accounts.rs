use chat_relay::accounts::{
    credentials_valid, login_outcome, password_digest, signup_outcome, validate_outcome,
    LoginOutcome, SignupOutcome,
};
use chat_relay::bytes::bytes_eq;
use chat_relay::db::{get_user, hash_password, user_exists, GetUserResult};

#[test]
fn password_digest_is_a_real_digest() {
    let d = password_digest("hunter2");
    assert_eq!(d.len(), 32);
    // not the password's own bytes handed back
    assert_ne!(d, b"hunter2".to_vec());
    // equal to blake3 computed independently
    assert_eq!(d, blake3::hash(b"hunter2").as_bytes().to_vec());
}

#[test]
fn credentials_match_only_the_right_password() {
    let stored = password_digest("hunter2");
    assert!(credentials_valid(Some(&stored), "hunter2"));
    assert!(!credentials_valid(Some(&stored), "hunter3"));
    assert!(!credentials_valid(None, "hunter2"));
}

#[test]
fn login_outcome_matrix() {
    let user = GetUserResult::User {
        username: "alice".to_string(),
        password: "pw".to_string(),
    };
    assert_eq!(login_outcome(&user, &"pw".to_string()), LoginOutcome::Accepted);
    assert_eq!(login_outcome(&user, &"wrong".to_string()), LoginOutcome::WrongPassword);
    assert_eq!(
        login_outcome(&GetUserResult::NotFound, &"pw".to_string()),
        LoginOutcome::UnknownUser
    );
}

#[test]
fn signup_outcome_matrix() {
    assert_eq!(signup_outcome(&Ok(false)), SignupOutcome::Accepted);
    assert_eq!(signup_outcome(&Ok(true)), SignupOutcome::UsernameTaken);
    assert_eq!(
        signup_outcome(&Err(anyhow::Error::msg("store down"))),
        SignupOutcome::StoreFailure
    );
}

#[test]
fn validate_outcome_follows_the_verifier() {
    assert!(validate_outcome(&Ok("alice".to_string())));
    assert!(!validate_outcome(&Err(anyhow::Error::msg("bad token"))));
}

#[test]
fn placeholder_store_answers() {
    match get_user("alice").unwrap() {
        GetUserResult::User { username, password } => {
            assert_eq!(username, "alice");
            assert_eq!(password, "temp password");
        }
        GetUserResult::NotFound => panic!("placeholder store lost a user"),
    }
    assert!(user_exists("anyone").unwrap());
    assert_eq!(hash_password("pw"), "pw");
}

#[test]
fn bytes_eq_compares_contents() {
    assert!(bytes_eq(b"abc", b"abc"));
    assert!(!bytes_eq(b"abc", b"abd"));
    assert!(!bytes_eq(b"abc", b"ab"));
    assert!(bytes_eq(b"", b""));
}
