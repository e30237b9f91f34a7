[package]
name = "chat_core"
version = "0.1.0"
edition = "2021"
publish = false

[dependencies]
futures = "=0.3.34"
serde = { version = "=1.0.229", features = ["derive"] }
serde_json = "=1.0.151"
tokio = { version = "=1.53.2", features = ["sync", "rt-multi-thread", "macros"] }
tokio-stream = "=0.1.19"
warp = { version = "=0.4.3", features = ["server", "websocket"] }
