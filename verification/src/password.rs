//! The opaque credential capability: deriving a salted one-way hash from a
//! password and verifying a password against a stored hash, through the
//! `argon2` crate.

use argon2::PasswordHasher;
use argon2::PasswordVerifier;
use vstd::prelude::*;

verus! {

/// Whether this string parses as a well-formed password-hash (PHC) string:
/// the result of `argon2::password_hash::PasswordHash::new`, a function of
/// the string alone.
pub uninterp spec fn valid_password_hash(hash: Seq<char>) -> bool;

/// Whether verification of this password against this hash succeeds: the
/// result of `argon2::Argon2::default().verify_password`, a function of the
/// hash (which carries the algorithm, parameters and salt) and the password.
pub uninterp spec fn password_verifies(hash: Seq<char>, password: Seq<char>) -> bool;

/// Relies on `argon2::Argon2::hash_password` with a freshly generated salt:
/// on success the result is a well-formed hash string against which the
/// hashed password verifies (the round trip documented by the crate).
#[verifier::external_body]
pub(crate) fn hash_password(password: &str) -> (r: Result<String, ()>)
    ensures
        r matches Ok(h) ==> valid_password_hash(h@) && password_verifies(h@, password@),
{
    let salt = argon2::password_hash::SaltString::generate(
        &mut argon2::password_hash::rand_core::OsRng,
    );
    match argon2::Argon2::default().hash_password(password.as_bytes(), &salt) {
        Ok(h) => Ok(h.to_string()),
        Err(_) => Err(()),
    }
}

/// Relies on `argon2::password_hash::PasswordHash::new` (parsing succeeds
/// exactly on well-formed hash strings) and
/// `argon2::Argon2::default().verify_password` (deterministic in the hash
/// and the password).
#[verifier::external_body]
pub(crate) fn verify_password(hash: &str, password: &str) -> (r: Result<bool, ()>)
    ensures
        r is Ok <==> valid_password_hash(hash@),
        r matches Ok(b) ==> b == password_verifies(hash@, password@),
{
    match argon2::password_hash::PasswordHash::new(hash) {
        Ok(parsed) => Ok(
            argon2::Argon2::default().verify_password(password.as_bytes(), &parsed).is_ok(),
        ),
        Err(_) => Err(()),
    }
}

} // verus!
