[package]
name = "model_audit"
version = "0.1.0"
edition = "2021"
publish = false

[dependencies]
anyhow = "1"
chrono = "0.4"
dirs = "*"
glob = "0.3"
serde = "1"
serde_json = "1"
