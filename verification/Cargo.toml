[package]
name = "ctv_pool"
version = "0.1.0"
edition = "2021"
publish = false

[dependencies]
bitcoin = "*"
bitcoincore-rpc = "*"
anyhow = "*"
serde_json = "*"
tracing = "*"
tracing-subscriber = "*"
