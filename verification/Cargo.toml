[package]
name = "dmcfe"
version = "0.1.0"
edition = "2021"
publish = false

[dependencies]
bls12_381 = { version = "0.8", features = ["experimental"] }
cosmian_bls12_381 = "*"
eyre = "0.6"
rand_core = { version = "0.6", features = ["getrandom"] }
sha2 = "0.9"

[dev-dependencies]
rand = "0.8"
