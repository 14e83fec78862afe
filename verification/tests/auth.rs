//! Registration and login behaviour, exercised end to end with the real
//! credential-hashing and token-signing crates.

use rbac_core::error::ApplicationError;
use rbac_core::login::{log_user_in, LoginUserArgs};
use rbac_core::register::{register_user, RegisterUserArgs};
use rbac_core::users::UserRepository;

const SECRET: &str = "test-signing-secret";

fn alice_args() -> RegisterUserArgs {
    RegisterUserArgs {
        first_name: "Alice".to_string(),
        last_name: "Smith".to_string(),
        email: "alice@example.com".to_string(),
        password: "correct horse battery staple".to_string(),
    }
}

#[test]
fn register_new_account_succeeds() {
    let mut users = UserRepository::new();
    let result = register_user(alice_args(), 1_700_000_000, &mut users);
    assert!(result.is_ok());
    assert_eq!(users.row_count(), 1);
    let stored = users.find_by_email(&"alice@example.com".to_string()).unwrap();
    assert_eq!(stored.id, 1);
    assert_eq!(stored.first_name, "Alice");
    assert_eq!(stored.last_name, "Smith");
    assert_eq!(stored.created_at, Some(1_700_000_000));
    // The credential is a derived hash, never the password itself.
    assert_ne!(stored.password, "correct horse battery staple");
    assert!(stored.password.starts_with("$argon2"));
}

#[test]
fn register_duplicate_email_rejected() {
    let mut users = UserRepository::new();
    register_user(alice_args(), 100, &mut users).unwrap();
    let mut second = alice_args();
    second.first_name = "Impostor".to_string();
    let result = register_user(second, 200, &mut users);
    match result {
        Err(ApplicationError::UserAlreadyExists(email)) => {
            assert_eq!(email, "alice@example.com");
        }
        other => panic!("expected UserAlreadyExists, got {:?}", other),
    }
    // The first account's row is unaffected.
    assert_eq!(users.row_count(), 1);
    let stored = users.find_by_email(&"alice@example.com".to_string()).unwrap();
    assert_eq!(stored.first_name, "Alice");
    assert_eq!(stored.created_at, Some(100));
}

#[test]
fn login_returns_decodable_token_with_day_long_expiry() {
    let mut users = UserRepository::new();
    register_user(alice_args(), 100, &mut users).unwrap();
    let now = jsonwebtoken::get_current_timestamp();
    let args = LoginUserArgs {
        email: "alice@example.com".to_string(),
        password: "correct horse battery staple".to_string(),
    };
    let response = log_user_in(args, now, SECRET, &users).unwrap();
    assert_eq!(response.user.id, 1);
    assert_eq!(response.user.first_name, "Alice");
    assert_eq!(response.user.last_name, "Smith");
    assert_eq!(response.user.email, "alice@example.com");

    let decoded = jsonwebtoken::decode::<serde_json::Value>(
        &response.token,
        &jsonwebtoken::DecodingKey::from_secret(SECRET.as_bytes()),
        &jsonwebtoken::Validation::new(jsonwebtoken::Algorithm::HS256),
    )
    .unwrap();
    let claims = decoded.claims;
    assert_eq!(claims.get("sub").and_then(|v| v.as_i64()), Some(1));
    assert_eq!(
        claims.get("email").and_then(|v| v.as_str()),
        Some("alice@example.com")
    );
    let iat = claims.get("iat").and_then(|v| v.as_u64()).unwrap();
    let exp = claims.get("exp").and_then(|v| v.as_u64()).unwrap();
    assert_eq!(iat, now);
    assert_eq!(exp - iat, 86400);
}

#[test]
fn login_failures_are_indistinguishable() {
    let mut users = UserRepository::new();
    register_user(alice_args(), 100, &mut users).unwrap();
    let wrong_password = log_user_in(
        LoginUserArgs {
            email: "alice@example.com".to_string(),
            password: "not her password".to_string(),
        },
        1_700_000_000,
        SECRET,
        &users,
    );
    let unknown_email = log_user_in(
        LoginUserArgs {
            email: "nobody@example.com".to_string(),
            password: "anything".to_string(),
        },
        1_700_000_000,
        SECRET,
        &users,
    );
    let first = match wrong_password {
        Err(ApplicationError::InvalidInput(m)) => m,
        other => panic!("expected InvalidInput, got {:?}", other),
    };
    let second = match unknown_email {
        Err(ApplicationError::InvalidInput(m)) => m,
        other => panic!("expected InvalidInput, got {:?}", other),
    };
    assert_eq!(first, second);
    assert_eq!(first, "Invalid email or password");
}

#[test]
fn login_with_correct_password_succeeds() {
    let mut users = UserRepository::new();
    register_user(alice_args(), 100, &mut users).unwrap();
    let result = log_user_in(
        LoginUserArgs {
            email: "alice@example.com".to_string(),
            password: "correct horse battery staple".to_string(),
        },
        1_700_000_000,
        SECRET,
        &users,
    );
    assert!(result.is_ok());
}

#[test]
fn error_status_and_message_mapping() {
    let duplicate = ApplicationError::UserAlreadyExists("a@b.c".to_string());
    assert_eq!(duplicate.http_status(), 409);
    assert_eq!(duplicate.public_message(), "User already exists");

    let invalid = ApplicationError::InvalidInput("detail".to_string());
    assert_eq!(invalid.http_status(), 400);
    assert_eq!(invalid.public_message(), "Invalid input");

    let internal = ApplicationError::InternalError("detail".to_string());
    assert_eq!(internal.http_status(), 500);
    assert_eq!(internal.public_message(), "Internal server error");

    let storage = ApplicationError::DatabaseError(
        rbac_core::error::DatabaseError::ConnectionError("detail".to_string()),
    );
    assert_eq!(storage.http_status(), 500);
    assert_eq!(storage.public_message(), "Internal server error");
}
