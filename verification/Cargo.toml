[package]
name = "snipurl"
version = "0.1.0"
edition = "2021"
publish = false

[dependencies]
rand = "0.9"
axum = "0.8"
serde = { version = "1", features = ["derive"] }
serde_json = "1"
sqlx = { version = "0.8", default-features = false, features = ["runtime-tokio", "sqlite"] }
tokio = { version = "1", features = ["macros", "rt-multi-thread", "net"] }
