[package]
name = "fileboard"
version = "0.1.0"
edition = "2021"
publish = false

[dependencies]
askama = "0.12"
axum = { version = "0.8", features = ["multipart"] }
chrono = "0.4"
futures = "0.3"
http-body-util = "0.1"
hyper = "1"
once_cell = "1"
serde = { version = "1", features = ["derive"] }
tokio = { version = "1", features = ["full"] }
toml = "0.8"
tower-http = { version = "0.6", features = ["limit", "trace"] }
urlencoding = "2"
uuid = { version = "1", features = ["v4"] }
