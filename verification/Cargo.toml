[package]
name = "hexrun_miner"
version = "0.1.0"
edition = "2021"
publish = false

[dependencies]
secp256k1 = "*"
sha3 = "*"
rand = "*"
hex = "*"
rayon = "*"
chrono = "*"
clap = { version = "*", features = ["derive"] }
num_cpus = "*"
