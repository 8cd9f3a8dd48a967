use vstd::prelude::*;
use vstd::utf8::encode_utf8;

use crate::bytes::bytes_eq;
use crate::db::{hash_password, GetUserResult};

verus! {

/// What the blake3 hash of a byte string is.  The digest is a function of
/// the input alone; its pages-long definition is not restated here.
pub uninterp spec fn blake3_of(data: Seq<u8>) -> Seq<u8>;

/// Relies on blake3::hash: the 32-byte digest of the input, depending on
/// the input bytes alone.
#[verifier::external_body]
fn blake3_hash(data: &[u8]) -> (r: Vec<u8>)
    ensures
        r@ == blake3_of(data@),
        r@.len() == 32,
{
    blake3::hash(data).as_bytes().to_vec()
}

/// The digest stored for a password at signup and checked at login.
pub fn password_digest(password: &str) -> (r: Vec<u8>)
    ensures
        r@ == blake3_of(encode_utf8(password@)),
        r@.len() == 32,
{
    blake3_hash(password.as_bytes())
}

/// Whether a login attempt's password matches the stored digest: true
/// exactly when the store held a digest for the name and it equals the
/// blake3 digest of the supplied password's bytes.
pub fn credentials_valid(stored_digest: Option<&Vec<u8>>, password: &str) -> (r: bool)
    ensures
        r == (stored_digest matches Some(d) && d@ == blake3_of(encode_utf8(password@))),
{
    match stored_digest {
        Some(d) => {
            let h = password_digest(password);
            bytes_eq(d.as_slice(), h.as_slice())
        }
        None => false,
    }
}

/// How a login attempt ends.
#[derive(Debug, PartialEq, Eq)]
pub enum LoginOutcome {
    /// The credentials matched; a token is owed.
    Accepted,
    /// The user exists but the password did not match.
    WrongPassword,
    /// No user with that name.
    UnknownUser,
}

/// The login rule: the supplied password must equal the stored form of the
/// user's password.
pub open spec fn spec_login_outcome(user: GetUserResult, supplied: Seq<char>) -> LoginOutcome {
    match user {
        GetUserResult::User { username: _, password } => if password@ == supplied {
            LoginOutcome::Accepted
        } else {
            LoginOutcome::WrongPassword
        },
        GetUserResult::NotFound => LoginOutcome::UnknownUser,
    }
}

/// Decides a login attempt from the fetched user record and the supplied
/// password.
pub fn login_outcome(user: &GetUserResult, supplied: &String) -> (r: LoginOutcome)
    ensures
        r == spec_login_outcome(*user, supplied@),
{
    match user {
        GetUserResult::User { username: _, password } => {
            let stored = hash_password(password.as_str());
            if stored == *supplied {
                LoginOutcome::Accepted
            } else {
                LoginOutcome::WrongPassword
            }
        }
        GetUserResult::NotFound => LoginOutcome::UnknownUser,
    }
}

/// How a signup attempt ends.
#[derive(Debug, PartialEq, Eq)]
pub enum SignupOutcome {
    /// The name is free; the account is created and a token is owed.
    Accepted,
    /// The name is taken.
    UsernameTaken,
    /// The store could not answer.
    StoreFailure,
}

/// Decides a signup attempt from the store's answer to "does that name
/// exist already?".
pub fn signup_outcome(exists: &Result<bool, anyhow::Error>) -> (r: SignupOutcome)
    ensures
        exists matches Ok(b) ==> r == (if *b {
            SignupOutcome::UsernameTaken
        } else {
            SignupOutcome::Accepted
        }),
        exists is Err ==> r == SignupOutcome::StoreFailure,
{
    match exists {
        Ok(true) => SignupOutcome::UsernameTaken,
        Ok(false) => SignupOutcome::Accepted,
        Err(_) => SignupOutcome::StoreFailure,
    }
}

/// Decides a token-validation request from the verifier's answer: valid
/// exactly when the verifier accepted the token.
pub fn validate_outcome(verification: &Result<String, anyhow::Error>) -> (r: bool)
    ensures
        r == (verification is Ok),
{
    match verification {
        Ok(_) => true,
        Err(_) => false,
    }
}

} // verus!
