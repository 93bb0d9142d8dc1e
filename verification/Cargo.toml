[package]
name = "myhs"
version = "0.1.0"
edition = "2021"
publish = false

[dependencies]
axum = { version = "*", features = ["multipart", "macros"] }
tokio = { version = "*", features = ["rt-multi-thread", "net", "fs", "macros"] }
tower = "*"
tower-http = { version = "*", features = ["cors", "trace"] }
tracing-subscriber = { version = "*", features = ["env-filter"] }
