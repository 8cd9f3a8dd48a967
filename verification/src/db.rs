use vstd::prelude::*;
use vstd::string::StringExecFns;

verus! {

// Placeholder account store, to be replaced by a working backend: it
// answers as if every name belonged to one user with a fixed password.

/// A user record as the account store returns it.
#[derive(Debug, Clone)]
pub enum GetUserResult {
    User { username: String, password: String },
    NotFound,
}

/// Fetches the record for `username`: every name resolves, with the fixed
/// placeholder password.
pub fn get_user(username: &str) -> (r: Result<GetUserResult, anyhow::Error>)
    ensures
        r matches Ok(GetUserResult::User { username: u, password: p }) && u@ == username@ && p@
            == "temp password"@,
{
    let password = String::from_str("temp password");
    Ok(GetUserResult::User { username: String::from_str(username), password })
}

/// Whether a user with that name exists: in the placeholder store, always.
pub fn user_exists(_username: &str) -> (r: Result<bool, anyhow::Error>)
    ensures
        r matches Ok(b) && b == true,
{
    Ok(true)
}

/// The stored form of a password: in the placeholder store, the password
/// itself.
pub fn hash_password(password: &str) -> (r: String)
    ensures
        r@ == password@,
{
    String::from_str(password)
}

} // verus!
