[package]
name = "dexios"
version = "0.1.0"
edition = "2021"
publish = false

[dependencies]
anyhow = "=1.0.104"
argon2 = "=0.4.1"
balloon-hash = "=0.3.0"
blake3 = { version = "=1.5.5", features = ["traits-preview"] }
dexios-core = "=1.2.0"
paris = "=1.5.15"
rand = "=0.8.8"
