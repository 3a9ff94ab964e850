[package]
name = "blockchain-rust"
version = "0.1.0"
edition = "2021"
publish = false

[dependencies]
bincode = "=1.3.3"
bitcoincash-addr = "=0.5.2"
clap = "=4.6.7"
failure = "=0.1.8"
log = "=0.4.34"
rand = "=0.4.6"
rust-crypto = "=0.2.36"
serde = { version = "=1.0.229", features = ["derive"] }
sled = "=0.34.7"
