[package]
name = "tileworld"
version = "0.1.0"
edition = "2021"
publish = false

[dependencies]
rust-crypto = "=0.2.36"
rand = "=0.8.8"
serde = { version = "=1.0.229", features = ["derive"] }
serde_json = "=1.0.151"
toml = "=0.8.23"
websocket = { version = "=0.26.5", default-features = false, features = ["sync"] }
