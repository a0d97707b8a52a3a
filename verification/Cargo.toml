[package]
name = "reconcile"
version = "1.0.0"
edition = "2021"
publish = false

[dependencies]
ipnet = "2"
metrics = "0.24"
parking_lot = "0.12"
rand = "0.9"
tokio = { version = "1", features = ["macros", "net", "rt-multi-thread", "sync", "time"] }
tokio-util = "0.7"
tracing = "0.1"
