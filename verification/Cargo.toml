[package]
name = "pubsub"
version = "0.1.0"
edition = "2021"
publish = false

[dependencies]
dashmap = "6"
tokio = { version = "1", features = ["sync", "rt-multi-thread", "macros", "net", "io-util"] }
tokio-util = { version = "0.7", features = ["codec"] }
futures = "0.3"
