[package]
name = "robotcode"
version = "0.1.0"
edition = "2021"
publish = false

[dependencies]
ropey = "1"
url = "2"
serde = { version = "1", features = ["derive"] }
serde_json = "1"
dashmap = "*"
thiserror = "*"
tokio = { version = "1", features = ["full"] }
tokio-util = "0.7"
anyhow = "1"
tracing = "0.1"
tracing-subscriber = { version = "0.3", features = ["env-filter"] }
notify = "*"
tower-lsp = "0.20"
