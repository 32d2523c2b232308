[package]
name = "splitcast"
version = "0.1.0"
edition = "2021"
publish = false

[dependencies]
livesplit-core = "=0.13.0"
tokio = { version = "=1.54.1", features = ["rt-multi-thread", "net", "time", "sync", "macros"] }
tokio-tungstenite = "=0.30.0"
futures-util = "=0.3.34"

[dev-dependencies]
serde_json = "=1.0.154"
