[package]
name = "iso_light_k0"
version = "0.1.0"
edition = "2021"
publish = false

[dependencies]
serde = { version = "=1.0.229", features = ["derive"] }
sha2 = "=0.10.9"
sha3 = "=0.10.9"
x448 = "=0.6.0"
zeroize = "=1.9.1"
