[package]
name = "executive"
version = "0.1.0"
edition = "2021"
publish = false

[dependencies]
anyhow = "=1.0.104"
uuid = { version = "=1.29.0", features = ["v4", "v5"] }
tokio = { version = "=1.54.1", features = ["sync", "rt", "macros", "time"] }
serde = { version = "=1.0.229", features = ["derive"] }
serde_json = "=1.0.154"
