[package]
name = "publichat"
version = "0.1.0"
edition = "2021"
publish = false

[dependencies]
sha3 = "0.10"
aes = "0.8"
ctr = "0.9"
ed25519-dalek = "1"
rand = "0.8"
base64 = "0.13"
