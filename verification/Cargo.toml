[package]
name = "ord_core"
version = "0.1.0"
edition = "2021"
publish = false

[dependencies]
anyhow = "1"
base64 = "0.21"
bitcoin = { version = "0.30", features = ["rand-std", "serde"] }
bitcoincore-rpc = "0.17"
ciborium = "0.2"
clap = { version = "4", features = ["derive"] }
ordinals = "0.0.9"
redb = "1"
serde = { version = "1", features = ["derive"] }
serde_json = "1"
serde_yaml = "0.9"

[dev-dependencies]
regex = "1"
