[package]
name = "node_network"
version = "0.1.0"
edition = "2021"
publish = false

[dependencies]
tokio = { version = "1", features = ["io-util", "macros", "net", "rt", "rt-multi-thread", "sync", "time"] }
parking_lot = "*"
thiserror = "*"
tracing = "*"
