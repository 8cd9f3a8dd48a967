use vstd::prelude::*;

use std::collections::BTreeMap;
use jwt_compact::AlgorithmExt;

verus! {

// The identity verifier is an outside collaborator: token issuance and
// verification are done by jwt_compact, consumed once per connection at
// handshake time.  Both depend on the clock (issuance stamps the current
// time; verification checks expiry and maturity against it), so their
// contracts promise nothing of the outcome: every caller in this crate
// states what it does for each possible answer.

#[verifier::external_type_specification]
#[verifier::external_body]
pub struct ExHs256Key(jwt_compact::alg::Hs256Key);

#[verifier::external_type_specification]
#[verifier::external_body]
pub struct ExCreationError(jwt_compact::CreationError);

#[verifier::external_type_specification]
#[verifier::external_body]
pub struct ExAnyhowError(anyhow::Error);

/// Relies on jwt_compact's `Hs256` HMAC algorithm (`AlgorithmExt::token`):
/// issues a signed token whose custom claims carry `user_id`, valid from now
/// for ten days.  The issuance moment is read from the clock, so nothing is
/// promised of the returned string.
#[verifier::external_body]
pub fn generate_jwt(key: &jwt_compact::alg::Hs256Key, user_id: &str) -> Result<
    String,
    jwt_compact::CreationError,
> {
    let time_options = jwt_compact::TimeOptions::default();
    let mut custom: BTreeMap<String, String> = BTreeMap::new();
    custom.insert("user_id".to_string(), user_id.to_string());
    let header = jwt_compact::Header::empty().with_key_id("my-key");
    let claims = jwt_compact::Claims::new(custom).set_duration_and_issuance(
        &time_options,
        chrono::Duration::days(10),
    ).set_not_before(chrono::Utc::now());
    jwt_compact::alg::Hs256.token(&header, &claims, key)
}

/// Relies on jwt_compact: `UntrustedToken::new` parses `token_str`,
/// `Validator::validate` checks the `Hs256` signature against
/// `verifying_key`, and `validate_expiration` / `validate_maturity` check the
/// time claims against the clock.  Returns the token's `user_id` claim.
/// Whether a given token is accepted depends on the clock, so nothing is
/// promised of the outcome.
#[verifier::external_body]
pub fn get_jwt(token_str: &str, verifying_key: &jwt_compact::alg::Hs256Key) -> Result<
    String,
    anyhow::Error,
> {
    let time_options = jwt_compact::TimeOptions::default();
    let token = jwt_compact::UntrustedToken::new(token_str)?;
    let token: jwt_compact::Token<BTreeMap<String, String>> = jwt_compact::alg::Hs256.validator(
        verifying_key,
    ).validate(&token)?;
    token.claims().validate_expiration(&time_options)?.validate_maturity(&time_options)?;
    match token.claims().custom.get("user_id") {
        Some(id) => Ok(id.clone()),
        None => Err(anyhow::Error::msg("token carries no user_id claim")),
    }
}

} // verus!
