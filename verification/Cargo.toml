[package]
name = "karo_common_rpc"
version = "0.1.0"
edition = "2021"
publish = false

[dependencies]
anyhow = "1"
bson = "2"
tokio = { version = "1", features = ["io-util", "sync", "net", "rt", "macros"] }
