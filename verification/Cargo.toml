[package]
name = "synthetrix"
version = "0.1.0"
edition = "2021"
publish = false

[dependencies]
flate2 = "=1.1.10"
serde = { version = "=1.0.229", features = ["derive"] }
serde_json = "=1.0.154"
sha2 = "=0.10.9"
dirs = "=5.0.1"
rusqlite = { version = "*", features = ["bundled"] }
