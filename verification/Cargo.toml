[package]
name = "chusst"
version = "0.1.0"
edition = "2021"
publish = false

[dependencies]
rand = "0.8"
anyhow = "1"
serde = { version = "1", features = ["derive"] }
serde_json = "1"
serde_yaml = "0.9"
colored = "2"
atty = "0.2"
tokio = { version = "1", features = ["rt", "sync", "macros"] }
