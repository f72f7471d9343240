[package]
name = "simple_p2p"
version = "0.1.0"
edition = "2021"
publish = false

[dependencies]
blake2 = "=0.11.0"
chrono = "=0.4.45"
near-sdk = { version = "=5.29.1", features = ["non-contract-usage"] }
