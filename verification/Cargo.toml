[package]
name = "program_cache"
version = "0.1.0"
edition = "2021"
publish = false

[dependencies]
log = "=0.4.34"
percentage = "=0.1.0"
rand = "=0.8.8"
solana-sdk = "=1.18.26"
solana_rbpf = "=0.8.5"
