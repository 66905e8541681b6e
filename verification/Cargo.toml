[package]
name = "countlogger"
version = "0.1.0"
edition = "2021"
publish = false

[dependencies]
chrono = "0.4"
serenity = { version = "0.12", default-features = false, features = ["builder", "cache", "chrono", "client", "gateway", "http", "model", "rustls_backend"] }
tokio = { version = "1", features = ["full"] }
tokio-util = "0.7"
sqlx = { version = "0.8", default-features = false, features = ["runtime-tokio", "postgres", "json"] }
serde = { version = "1", features = ["derive"] }
serde_json = "1"
axum = "0.7"
dotenv = "0.15"
env_logger = "0.11"
humantime = "2"
once_cell = "1"
