//! Registration: reject an email already on file, derive the salted
//! credential, persist the new account.

use vstd::prelude::*;

use crate::error::ApplicationError;
use crate::password::{hash_password, password_verifies, valid_password_hash};
use crate::records::{UserRecordMutation, UserRecordV};
use crate::users::{email_taken, UserRepository};

verus! {

/// What a registration request carries.
#[derive(Debug)]
pub struct RegisterUserArgs {
    pub first_name: String,
    pub last_name: String,
    pub email: String,
    pub password: String,
}

/// Register a new account.
///
/// Fails with `UserAlreadyExists` exactly when the email is already on
/// file, and then changes nothing. On success the store gains one row: the
/// given names and email, a credential hash that verifies against the given
/// password, both timestamps set to `now`. Any failure leaves the store
/// unchanged; the only failures besides the duplicate email are an internal
/// fault of the credential subsystem and storage exhaustion.
pub fn register_user(args: RegisterUserArgs, now: u64, users: &mut UserRepository) -> (r: Result<
    (),
    ApplicationError,
>)
    requires
        old(users).wf(),
    ensures
        final(users).wf(),
        (r matches Err(ApplicationError::UserAlreadyExists(_))) <==> email_taken(
            old(users).rows(),
            args.email@,
        ),
        r matches Err(ApplicationError::UserAlreadyExists(e)) ==> e@ == args.email@,
        r is Err ==> *final(users) == *old(users),
        r is Ok ==> {
            &&& !email_taken(old(users).rows(), args.email@)
            &&& exists|h: Seq<char>|
                {
                    &&& #[trigger] valid_password_hash(h)
                    &&& password_verifies(h, args.password@)
                    &&& final(users).rows() == old(users).rows().push(
                        UserRecordV {
                            id: old(users).next_id_spec(),
                            first_name: args.first_name@,
                            last_name: args.last_name@,
                            email: args.email@,
                            password: h,
                            created_at: Some(now),
                            updated_at: Some(now),
                        },
                    )
                }
            &&& final(users).next_id_spec() == old(users).next_id_spec() + 1
        },
        !email_taken(old(users).rows(), args.email@) && old(users).next_id_spec() < i32::MAX ==> (
        r is Ok || r matches Err(ApplicationError::InternalError(_))),
        r matches Err(e) ==> !(e matches ApplicationError::InvalidInput(_)),
{
    let existing = users.find_by_email(&args.email);
    if existing.is_some() {
        return Err(ApplicationError::UserAlreadyExists(args.email));
    }
    let password_hash = match hash_password(args.password.as_str()) {
        Ok(h) => h,
        Err(()) => {
            return Err(
                ApplicationError::InternalError(
                    String::from_str("failed to derive the password credential"),
                ),
            );
        },
    };
    let mutation = UserRecordMutation {
        first_name: args.first_name,
        last_name: args.last_name,
        email: args.email,
        password: password_hash,
    };
    match users.create(mutation, now) {
        Ok(_) => Ok(()),
        Err(e) => Err(ApplicationError::DatabaseError(e)),
    }
}

} // verus!
