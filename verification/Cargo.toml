[package]
name = "log_grabber"
version = "0.1.0"
edition = "2021"
publish = false

[dependencies]
bincode = "1.3"
bytecount = "0.6"
crossbeam-channel = "0.5"
serde = { version = "1", features = ["derive"] }
serde_json = "1"
thiserror = "1"
tokio = { version = "1", features = ["rt", "rt-multi-thread", "sync"] }
uuid = { version = "1", features = ["v4"] }
