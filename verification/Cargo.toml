[package]
name = "snarkos_router"
version = "0.1.0"
edition = "2021"
publish = false

[dependencies]
aleo-std = "1"
anyhow = "1"
parking_lot = "0.12"
snarkvm = { version = "=4.3.1", default-features = false, features = ["console"] }
tokio = { version = "1", features = ["rt", "sync"] }
tracing = "0.1"
