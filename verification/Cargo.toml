[package]
name = "taproot_signer"
version = "0.1.0"
edition = "2021"
publish = false

[dependencies]
bitcoin = { version = "0.29", features = ["rand"] }
tokio = { version = "1", features = ["fs"] }
