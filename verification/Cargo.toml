[package]
name = "aqd-solana"
version = "0.1.0"
edition = "2021"
publish = false

[dependencies]
anyhow = "1"
base64 = "0.22"
bs58 = "0.5"
clap = { version = "4", features = ["derive"] }
serde_json = "1"
sha2 = "0.10"
