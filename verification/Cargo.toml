[package]
name = "joes_book"
version = "0.1.0"
edition = "2021"
publish = false

[dependencies]
bcrypt = "0.15"
chrono = "0.4"
axum = "0.7"
axum-extra = { version = "0.9", features = ["cookie"] }
maud = { version = "0.26", features = ["axum"] }
serde = { version = "1", features = ["derive"] }
serde_json = "1"
sqlx = { version = "0.8", default-features = false, features = ["runtime-tokio", "postgres", "json"] }
tokio = { version = "1", features = ["macros", "rt-multi-thread"] }
tower-sessions = "0.12"
oauth2 = "4.4"
reqwest = { version = "0.11", default-features = false, features = ["json", "rustls-tls"] }
cf-turnstile = "*"
itertools = "0.12"
