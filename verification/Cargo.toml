[package]
name = "fanout_relay"
version = "0.1.0"
edition = "2021"
publish = false

[dependencies]
bytes = "*"
dashmap = "*"
futures-util = "*"
tokio = { version = "*", features = ["full"] }
tokio-tungstenite = "*"
