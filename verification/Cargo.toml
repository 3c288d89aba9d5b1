[package]
name = "pvss"
version = "0.1.0"
edition = "2021"
publish = false

[dependencies]
curve25519-dalek = { version = "4", features = ["rand_core", "digest"] }
sha2 = "0.10"
rand_core = { version = "0.6", features = ["getrandom"] }
