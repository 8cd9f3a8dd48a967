use vstd::prelude::*;

verus! {

// The message shapes exchanged with clients.  Serialization lives at the
// process edge; the relay core itself frames and checks envelope bytes in
// `codec`.

/// The custom claims carried by an issued token.
#[derive(Debug, Clone)]
pub struct TokenClaims {
    pub user_id: String,
}

/// A client's login request.
#[derive(Debug, Clone)]
pub struct LoginData {
    pub access_key: String,
    pub password: String,
}

/// A client's account-creation request.
#[derive(Debug, Clone)]
pub struct SignupData {
    pub access_key: String,
    pub password: String,
    pub display_name: String,
}

/// A message a client asks the relay to deliver.
#[derive(Debug, Clone)]
pub struct SentMessage {
    pub access_token: String,
    pub user_id: String,
    pub content: String,
}

/// Everything a client can send, one arm per kind.
#[derive(Debug, Clone)]
pub enum ClientMessage {
    LoginData(LoginData),
    SignupData(SignupData),
    SentMessage(SentMessage),
}

/// A message delivered to a client.
#[derive(Debug, Clone)]
pub struct NewMessage {
    pub user_id: String,
    pub content: String,
}

/// The token handed back on a successful login.
#[derive(Debug, Clone)]
pub struct LoginConfirmation {
    pub access_token: String,
}

/// The token handed back on a successful signup.
#[derive(Debug, Clone)]
pub struct SignupConfirmation {
    pub access_token: String,
}

/// Everything the server can send, one arm per kind.
#[derive(Debug, Clone)]
pub enum ServerMessage {
    NewMessage(NewMessage),
    LoginConfirmation(LoginConfirmation),
    SignupConfirmation(SignupConfirmation),
}

} // verus!
