[package]
name = "rbac_core"
version = "0.1.0"
edition = "2021"
publish = false

[dependencies]
argon2 = { version = "=0.5.3", features = ["std"] }
jsonwebtoken = { version = "=11.1.0", features = ["rust_crypto"] }
serde = { version = "*", features = ["derive"] }
serde_json = "*"
axum = "*"
tokio = { version = "*", features = ["rt-multi-thread", "macros", "net"] }
sqlx = { version = "*", default-features = false, features = ["runtime-tokio", "postgres"] }
dotenv = "*"
tracing = "*"
tracing-subscriber = "*"
