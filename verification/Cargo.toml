[package]
name = "p2p_sync"
version = "0.1.0"
edition = "2021"
publish = false

[dependencies]
rand = "0.8"
anyhow = "1"
tokio = { version = "1", features = ["rt", "sync"] }
futures = "0.3"
tokio-stream = "0.1"
