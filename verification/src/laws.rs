//! Laws relating several operations, stated over the same spec functions
//! the operations' own contracts use.

use vstd::prelude::*;

use crate::login::login_denied;
use crate::password::{password_verifies, valid_password_hash};
use crate::records::UserRecordV;
use crate::users::{email_taken, user_by_email};

verus! {

/// Registering the same email twice: after a successful registration the
/// store's rows are the old rows with the new account appended, so the
/// email is on file; `register_user`'s contract then forces the second
/// call with that email into the `UserAlreadyExists` outcome, with every
/// row — the first account's included — left unchanged.
pub proof fn lemma_register_twice_rejected(
    rows: Seq<UserRecordV>,
    created: UserRecordV,
    email: Seq<char>,
)
    requires
        created.email == email,
    ensures
        email_taken(rows.push(created), email),
{
    assert(rows.push(created)[rows.len() as int] == created);
}

/// Login with an unknown email and login with a known email but a wrong
/// password are both `login_denied`; `log_user_in`'s contract maps every
/// denied input to `InvalidInput` carrying the one fixed message, so the
/// two outcomes are identical and indistinguishable to the caller.
pub proof fn lemma_login_failure_indistinguishable(
    rows: Seq<UserRecordV>,
    unknown_email: Seq<char>,
    any_password: Seq<char>,
    known_email: Seq<char>,
    wrong_password: Seq<char>,
)
    requires
        !email_taken(rows, unknown_email),
        email_taken(rows, known_email),
        valid_password_hash(user_by_email(rows, known_email).password),
        !password_verifies(user_by_email(rows, known_email).password, wrong_password),
    ensures
        login_denied(rows, unknown_email, any_password),
        login_denied(rows, known_email, wrong_password),
{
}

} // verus!
