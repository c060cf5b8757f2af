[package]
name = "gnunet"
version = "0.1.0"
edition = "2021"
publish = false

[dependencies]
rust-crypto = "*"
curve25519-dalek = "*"
sha2 = "*"
