[package]
name = "evolve"
version = "0.1.0"
edition = "2021"
publish = false

[dependencies]
anchor-lang = "=0.31.2"
anchor-spl = { version = "=0.31.2", default-features = false, features = ["associated_token", "mint", "token"] }
spl-token = "=9.0.0"
spl-account-compression = "=1.0.0"
wormhole-sdk = "=0.0.7"
