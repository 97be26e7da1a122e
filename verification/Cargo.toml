[package]
name = "duxnet"
version = "0.1.0"
edition = "2021"
publish = false

[dependencies]
base64 = "0.21"
ed25519-dalek = "2"
hex = "0.4"
rand = "0.8"
sha2 = "0.10"
uuid = { version = "1", features = ["v4"] }
