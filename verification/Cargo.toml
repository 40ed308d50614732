[package]
name = "cli-proxy"
version = "0.1.0"
edition = "2021"
publish = false

[dependencies]
serde_json = "=1.0.154"
serde = { version = "=1.0.229", features = ["derive"] }
astrid-sdk = "=0.7.2"
