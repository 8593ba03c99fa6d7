[package]
name = "phash"
version = "0.1.0"
edition = "2021"
publish = false

[dependencies]
argon2 = "*"
base64 = "0.22"
zeroize = "1"
axum = "*"
dotenv = "0.15"
region = "3"
serde = { version = "1", features = ["derive"] }
tokio = { version = "1", features = ["full"] }
tower-http = { version = "*", features = ["trace"] }
tracing = "0.1"
tracing-subscriber = { version = "0.3", features = ["env-filter"] }
