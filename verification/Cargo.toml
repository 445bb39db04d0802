[package]
name = "scnr"
version = "0.1.0"
edition = "2021"
publish = false

[dependencies]
regex-syntax = "=0.8.11"
serde = { version = "=1.0.229", features = ["derive"] }
dot-writer = "=0.1.4"
log = "=0.4.35"
seshat-unicode = "*"

[dev-dependencies]
serde_json = "=1.0.154"
