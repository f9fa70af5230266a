[package]
name = "m31_limbs"
version = "0.1.0"
edition = "2021"
publish = false

[dependencies]
anyhow = "=1.0.104"
stwo = "*"

[dev-dependencies]
rand = "0.8"
rand_chacha = "0.3"
