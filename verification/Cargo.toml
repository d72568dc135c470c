[package]
name = "portscan"
version = "0.1.0"
edition = "2021"
publish = false

[dependencies]
async-std = "1"
futures = "0.3"
tokio = { version = "1", features = ["time"] }
