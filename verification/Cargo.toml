[package]
name = "eddsa"
version = "0.1.0"
edition = "2021"
publish = false

[dependencies]
ark-ec = "0.5"
ark-ff = "0.5"
ark-serialize = "0.5"
ark-ed-on-bls12-381 = "0.5"
blake3 = "1"
eyre = "0.6"
num-bigint = "0.4"
poseidon2 = "*"
rand = "0.8"
zeroize = { version = "1", features = ["derive"] }

[dev-dependencies]
hex = "0.4"
