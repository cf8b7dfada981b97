[package]
name = "embeddings"
version = "0.1.0"
edition = "2021"
publish = false

[dependencies]
anyhow = "1"
env_logger = "*"
http = "*"
log = "0.4"
serde = { version = "1", features = ["derive"] }
serde_json = "1"
serde_qs = "*"
spin-sdk = "*"
