[package]
name = "guardlib"
version = "1.0.0"
edition = "2021"
publish = false

[dependencies]
ed25519-dalek = "2"
sha2 = "0.10"
