//! Credentials accepted by the storage access layer.

use vstd::prelude::*;

verus! {

/// A credential handed to a storage backend when opening a connection.
#[derive(Debug, Clone)]
pub enum Credential {
    /// HTTP Basic Authentication.
    Basic { username: String, password: String },
    /// Access-key / secret-key authentication, commonly called HMAC even
    /// though the HMAC computation is only one step of it.
    HMAC { access_key_id: String, secret_access_key: String },
    /// A static API token.
    Token(String),
}

impl Credential {
    /// Builds a Basic credential from a user name and a password.
    pub fn basic(username: String, password: String) -> (c: Credential)
        ensures
            c == (Credential::Basic { username, password }),
    {
        Credential::Basic { username, password }
    }

    /// Builds an access-key / secret-key credential.
    pub fn hmac(access_key_id: String, secret_access_key: String) -> (c: Credential)
        ensures
            c == (Credential::HMAC { access_key_id, secret_access_key }),
    {
        Credential::HMAC { access_key_id, secret_access_key }
    }

    /// Builds a static token credential.
    pub fn token(token: String) -> (c: Credential)
        ensures
            c == Credential::Token(token),
    {
        Credential::Token(token)
    }
}

} // verus!
