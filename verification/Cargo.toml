[package]
name = "solfort"
version = "0.1.0"
edition = "2021"
publish = false

[dependencies]
solana-sdk = "=2.3.1"
bs58 = "0.5"
clap = { version = "*", features = ["derive"] }

[dev-dependencies]
serde_json = "*"
