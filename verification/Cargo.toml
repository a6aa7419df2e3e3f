[package]
name = "redis_aio"
version = "0.1.0"
edition = "2021"
publish = false

[dependencies]
async-std = "=1.13.2"
async-trait = "=0.1.92"
bytes = "0.5"
futures-util = { version = "=0.3.34", features = ["sink"] }
pin-project-lite = "=0.1.12"
tokio = { version = "=0.2.25", features = ["sync", "io-util", "tcp", "uds", "stream"] }
tokio-util = { version = "=0.3.1", features = ["codec"] }
