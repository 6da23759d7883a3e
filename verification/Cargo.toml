[package]
name = "one_slot"
version = "0.1.0"
edition = "2021"
publish = false

[dependencies]
axum = "0.8"
dashmap = "6"
env_logger = { version = "0.11", default-features = false }
futures-util = "0.3"
hex = "0.4"
mimalloc = { version = "0.1", default-features = false }
reqwest = { version = "0.12", default-features = false, features = ["http2", "json", "stream"] }
serde = { version = "1", features = ["derive"] }
serde_json = "1"
sha2 = "0.10"
tokio = { version = "1", features = ["full"] }
tokio-stream = "0.1"
uuid = { version = "1", features = ["v4"] }
