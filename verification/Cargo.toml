[package]
name = "sangha"
version = "0.1.0"
edition = "2021"
publish = false

[dependencies]
blake3 = "1"
hex = "0.4"
base64 = "0.13"
ed25519-dalek = "2"
image = { version = "0.24", default-features = false, features = ["png", "jpeg"] }
serde = { version = "1", features = ["derive"] }
serde_json = "1"
rand = "0.8"
rand_core = "0.6"
rexiv2 = "*"
