[package]
name = "curp_client"
version = "0.1.0"
edition = "2021"
publish = false

[dependencies]
dashmap = "5.5.3"
tokio = { version = "1", features = ["rt", "time", "sync", "macros"] }
tonic = { version = "0.10", default-features = false }
