[package]
name = "netcode_core"
version = "0.1.0"
edition = "2021"
publish = false

[dependencies]
chacha20poly1305 = "=0.10.1"
rand = "=0.8.8"
serde = { version = "=1.0.229", features = ["derive"] }
serde_with = "=3.24.0"
url = { version = "=2.5.8", features = ["serde"] }
