[package]
name = "mempool_monitor"
version = "0.1.0"
edition = "2021"
publish = false

[dependencies]
serde = { version = "=1.0.229", features = ["derive"] }
serde_json = { version = "=1.0.154", features = ["preserve_order"] }
bitcoincore-rpc = "=0.19.0"
jsonwebtoken = "=9.3.1"
uuid = { version = "=1.29.0", features = ["v4"] }
rocket = "=0.5.2"
