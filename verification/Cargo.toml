[package]
name = "doppler_keygen"
version = "0.1.0"
edition = "2021"
publish = false

[dependencies]
hex = "0.4"
serde_json = "1"
solana-keypair = "*"
solana-signer = "*"
