//! Login: look the account up by email, verify the password against the
//! stored credential, and on success issue a signed session token together
//! with a public-safe projection of the account.
//!
//! An unknown email and a wrong password yield one and the same error
//! value, so the two cases cannot be told apart by a caller.

use vstd::prelude::*;

use crate::error::ApplicationError;
use crate::password::{password_verifies, valid_password_hash, verify_password};
use crate::records::UserRecordV;
use crate::token::{sign_token, token_of, Claims, TOKEN_VALIDITY_SECONDS};
use crate::users::{email_taken, user_by_email, UserRepository};

verus! {

/// What a login request carries.
#[derive(Debug)]
pub struct LoginUserArgs {
    pub email: String,
    pub password: String,
}

/// The public-safe projection of an account: the credential is excluded.
#[derive(Debug)]
pub struct UserInfo {
    pub id: i32,
    pub first_name: String,
    pub last_name: String,
    pub email: String,
}

/// What a successful login returns.
#[derive(Debug)]
pub struct LoginResponse {
    pub token: String,
    pub user: UserInfo,
}

/// Login is refused as unauthorized: either no account holds the email, or
/// one does, its credential is well-formed, and the password does not
/// verify against it. Both cases map to the identical error.
pub open spec fn login_denied(
    rows: Seq<UserRecordV>,
    email: Seq<char>,
    password: Seq<char>,
) -> bool {
    ||| !email_taken(rows, email)
    ||| {
        let u = user_by_email(rows, email);
        valid_password_hash(u.password) && !password_verifies(u.password, password)
    }
}

/// Log an account in.
///
/// Exactly the `login_denied` inputs are refused with `InvalidInput`, and
/// every such refusal carries the one fixed message, so an unknown email
/// and a wrong password are indistinguishable. On success the response
/// holds the account's public projection and a token signed over the
/// account identifier, the email, the issue time `now` and an expiry
/// exactly 24 hours later. With a well-formed stored credential and a
/// matching password, success is owed; a stored credential that does not
/// parse is an internal fault.
pub fn log_user_in(args: LoginUserArgs, now: u64, secret: &str, users: &UserRepository) -> (r:
    Result<LoginResponse, ApplicationError>)
    requires
        users.wf(),
        now + TOKEN_VALIDITY_SECONDS <= u64::MAX,
    ensures
        login_denied(users.rows(), args.email@, args.password@) <==> (r matches Err(
            ApplicationError::InvalidInput(_),
        )),
        r matches Err(ApplicationError::InvalidInput(m)) ==> m@ == "Invalid email or password"@,
        r matches Ok(resp) ==> {
            let u = user_by_email(users.rows(), args.email@);
            &&& email_taken(users.rows(), args.email@)
            &&& valid_password_hash(u.password)
            &&& password_verifies(u.password, args.password@)
            &&& resp.user.id as int == u.id
            &&& resp.user.first_name@ == u.first_name
            &&& resp.user.last_name@ == u.last_name
            &&& resp.user.email@ == u.email
            &&& resp.token@ == token_of(
                u.id,
                u.email,
                now as int,
                now + TOKEN_VALIDITY_SECONDS,
                secret@,
            )
        },
        email_taken(users.rows(), args.email@) && valid_password_hash(
            user_by_email(users.rows(), args.email@).password,
        ) && password_verifies(
            user_by_email(users.rows(), args.email@).password,
            args.password@,
        ) ==> r is Ok,
        email_taken(users.rows(), args.email@) && !valid_password_hash(
            user_by_email(users.rows(), args.email@).password,
        ) ==> r matches Err(ApplicationError::InternalError(_)),
        r matches Err(e) ==> (e matches ApplicationError::InvalidInput(_) || e matches
            ApplicationError::InternalError(_)),
{
    let found = users.find_by_email(&args.email);
    let user = match found {
        Some(u) => u,
        None => {
            return Err(
                ApplicationError::InvalidInput(String::from_str("Invalid email or password")),
            );
        },
    };
    match verify_password(user.password.as_str(), args.password.as_str()) {
        Err(()) => {
            return Err(
                ApplicationError::InternalError(
                    String::from_str("failed to parse the stored password hash"),
                ),
            );
        },
        Ok(false) => {
            return Err(
                ApplicationError::InvalidInput(String::from_str("Invalid email or password")),
            );
        },
        Ok(true) => {},
    }
    let claims = Claims::new(user.id, user.email.clone(), now);
    let token = sign_token(&claims, secret);
    Ok(
        LoginResponse {
            token,
            user: UserInfo {
                id: user.id,
                first_name: user.first_name,
                last_name: user.last_name,
                email: user.email,
            },
        },
    )
}

} // verus!
