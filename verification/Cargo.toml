[package]
name = "ncd_tipping"
version = "0.1.0"
edition = "2021"
publish = false

[dependencies]
near-sdk = { version = "=4.1.1", default-features = false }
near-helper = "0.5.0"
