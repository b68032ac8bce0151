[package]
name = "orbis"
version = "0.1.0"
edition = "2021"
publish = false

[dependencies]
parity-scale-codec = "=3.7.5"
scale-info = "=2.11.6"
sp-core = { version = "=43.0.0", default-features = false }
sp-crypto-hashing = "=0.1.0"
verifiable = "=0.4.1"
