[package]
name = "lite-mc-ping"
version = "0.1.0"
edition = "2021"
publish = false

[dependencies]
hickory-resolver = "*"
rand = "*"
serde = { version = "1", features = ["derive"] }
serde_json = "1"
thiserror = "2"
tokio = { version = "1", features = ["io-util", "net", "rt", "time"] }
varint = "*"
