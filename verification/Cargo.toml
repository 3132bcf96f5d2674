[package]
name = "copernica"
version = "0.1.0"
edition = "2021"
publish = false

[dependencies]
cryptoxide = { version = "=0.6.7", features = ["digest"] }
sha3 = "=0.8.2"
bitvec = "=1.1.1"
reed-solomon = "=0.2.1"
bincode = "=1.3.3"
rand = "=0.7.3"
bech32 = "=0.7.3"
base64 = "=0.13.1"
getrandom = "=0.1.16"
serde = { version = "=1.0.229", features = ["derive"] }
crossbeam-channel = "=0.5.17"
sled = "=0.34.7"
walkdir = "=2.5.0"
