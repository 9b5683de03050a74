[package]
name = "hdwallet_core"
version = "0.1.0"
edition = "2021"
publish = false

[dependencies]
hmac = "*"
sha2 = "*"
ed25519-dalek = "*"
curve25519-dalek = "*"
secp256k1 = "*"
tiny-keccak = { version = "*", features = ["keccak"] }
tiny-bip39 = "*"
hex = "*"
serde = { version = "*", features = ["derive"] }
async-trait = "*"
anyhow = "*"
thiserror = "*"
ethereum-types = "*"
web3 = { version = "*", default-features = false, features = ["http", "signing"] }
tokio = { version = "*", features = ["rt-multi-thread", "macros"] }
