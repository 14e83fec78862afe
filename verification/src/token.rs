//! Session tokens: the signed payload carries the account identifier, the
//! email, the issue time and a fixed 24-hour expiry. Signing goes through
//! the `jsonwebtoken` crate.

use vstd::prelude::*;

verus! {

/// How long an issued token stays valid, in seconds: 24 hours.
pub const TOKEN_VALIDITY_SECONDS: u64 = 86400;

/// The payload of a session token.
#[derive(Debug)]
pub struct Claims {
    pub sub: i32,
    pub email: String,
    pub exp: u64,
    pub iat: u64,
}

impl Claims {
    /// The payload for an account logged in at `iat`: subject is the
    /// account identifier and the expiry is exactly 24 hours later.
    pub fn new(sub: i32, email: String, iat: u64) -> (c: Claims)
        requires
            iat + TOKEN_VALIDITY_SECONDS <= u64::MAX,
        ensures
            c.sub == sub,
            c.email == email,
            c.iat == iat,
            c.exp == iat + TOKEN_VALIDITY_SECONDS,
    {
        let exp = iat + TOKEN_VALIDITY_SECONDS;
        Claims { sub, email, exp, iat }
    }
}

/// The signed token for these claim fields under this secret: the result of
/// `jsonwebtoken::encode` with the default (HS256) header, a function of
/// its arguments alone. The crate resolves its cryptography through a
/// process-wide provider; with only its `rust_crypto` feature enabled and
/// nothing installing another provider — this library installs none — that
/// resolution is fixed, so the token depends on the arguments alone.
pub uninterp spec fn token_of(
    sub: int,
    email: Seq<char>,
    iat: int,
    exp: int,
    secret: Seq<char>,
) -> Seq<char>;

/// Relies on `jsonwebtoken::encode` with `jsonwebtoken::Header::default()`
/// (HS256) and `jsonwebtoken::EncodingKey::from_secret`: HMAC signing of a
/// deterministic serialization (the payload map serializes key-sorted), so
/// the token is a function of the claim fields and the secret. For this
/// fixed usage `encode` has no failure path: the header's algorithm family
/// matches the secret key's by construction, the HS256 signer accepts a
/// key of any length and its signing is infallible, and serializing a JSON
/// object cannot fail — so the expectation is never reached.
#[verifier::external_body]
pub(crate) fn sign_token(claims: &Claims, secret: &str) -> (t: String)
    ensures
        t@ == token_of(
            claims.sub as int,
            claims.email@,
            claims.iat as int,
            claims.exp as int,
            secret@,
        ),
{
    let mut payload = serde_json::Map::new();
    payload.insert("sub".to_string(), serde_json::Value::from(claims.sub));
    payload.insert("email".to_string(), serde_json::Value::from(claims.email.as_str()));
    payload.insert("exp".to_string(), serde_json::Value::from(claims.exp));
    payload.insert("iat".to_string(), serde_json::Value::from(claims.iat));
    let key = jsonwebtoken::EncodingKey::from_secret(secret.as_bytes());
    jsonwebtoken::encode(&jsonwebtoken::Header::default(), &serde_json::Value::Object(payload), &key)
        .expect("HS256 signing of a JSON object over a secret key cannot fail")
}

} // verus!
