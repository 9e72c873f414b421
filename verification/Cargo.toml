[package]
name = "rtcp"
version = "0.1.0"
edition = "2021"
publish = false

[dependencies]
p256 = { version = "0.13", features = ["ecdh"] }
rand_core = { version = "0.6", features = ["getrandom"] }
ring = "0.17"
x25519-dalek = { version = "2", features = ["static_secrets"] }
