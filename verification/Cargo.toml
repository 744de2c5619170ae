[package]
name = "charter"
version = "0.1.0"
edition = "2021"
publish = false

[dependencies]
blake3 = { version = "1", features = ["pure"] }
serde = { version = "1", features = ["derive"] }
serde_json = "1"
thiserror = "1"
