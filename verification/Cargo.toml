[package]
name = "flash"
version = "0.1.0"
edition = "2021"
publish = false

[dependencies]
axum = "0.8"
clap = { version = "4", features = ["derive"] }
notify = "6"
reqwest = { version = "0.12", default-features = false, features = ["multipart"] }
serde = { version = "1", features = ["derive"] }
serde_json = "1"
tokio = { version = "1", features = ["rt-multi-thread", "macros", "fs", "net", "sync"] }
tower-http = { version = "0.6", features = ["cors"] }
