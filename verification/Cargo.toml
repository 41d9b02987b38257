[package]
name = "agentharbor"
version = "0.1.0"
edition = "2021"
publish = false

[dependencies]
rusqlite = { version = "=0.31.0", features = ["bundled"] }
serde = { version = "=1.0.229", features = ["derive"] }
serde_json = "=1.0.154"
sha2 = "=0.10.9"
tauri = { version = "2", default-features = false }
thiserror = "=1.0.69"
uuid = { version = "=1.29.0", features = ["v4", "serde"] }
