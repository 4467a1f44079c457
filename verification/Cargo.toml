[package]
name = "uplog"
version = "0.1.0"
edition = "2021"
publish = false

[dependencies]
chrono = "0.4"
uuid = { version = "1", features = ["v4"] }
tungstenite = "0.21"

[dev-dependencies]
serde_cbor = "0.11"
