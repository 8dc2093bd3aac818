[package]
name = "schnorr_nizk"
version = "0.1.0"
edition = "2021"
publish = false

[dependencies]
chrono = "0.4"
curve25519-dalek = "4"
hex = "0.4"
linux-keyutils = "0.2"
rand = "0.8"
serde = { version = "1", features = ["derive"] }
serde_json = "1"
tiny-keccak = { version = "2.0", features = ["sha3", "kmac"] }
