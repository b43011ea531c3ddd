[package]
name = "codegraph"
version = "0.1.0"
edition = "2021"
publish = false

[dependencies]
anyhow = "1"
notify = "8"
rusqlite = { version = "0.37", features = ["bundled"] }
serde = { version = "1", features = ["derive"] }
serde_json = "1"
thiserror = "1"
tracing = "0.1"
tracing-subscriber = "0.3"
