[package]
name = "expander_rs"
version = "0.1.0"
edition = "2021"
publish = false

[dependencies]
blake3 = { version = "1", default-features = false, features = ["pure"] }
halo2curves = { version = "*", default-features = false }
rand = "0.8"
rs_merkle = "1"
sha2 = "0.10"
