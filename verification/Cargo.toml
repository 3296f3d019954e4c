[package]
name = "mmids_core"
version = "0.1.0"
edition = "2021"
publish = false

[dependencies]
rtp = "*"
bytes = "*"
tokio = { version = "1", features = ["sync", "rt", "macros", "time"] }
futures = "0.3"
hyper = { version = "0.14", features = ["server", "http1", "tcp"] }
