[package]
name = "buzz_acp"
version = "0.1.0"
edition = "2021"
publish = false

[dependencies]
nostr = "0.44"
serde = { version = "=1.0.229", features = ["derive"] }
serde_json = { version = "=1.0.154", features = ["raw_value"] }
tokio = { version = "=1.54.1", features = ["rt", "sync", "time"] }
tracing = "=0.1.44"
uuid = { version = "=1.29.0", features = ["v4"] }
