[package]
name = "voicelink"
version = "0.1.0"
edition = "2021"
publish = false

[dependencies]
uuid = { version = "*", features = ["v4"] }
tokio = { version = "*", features = ["rt-multi-thread", "macros", "net", "sync"] }
tokio-tungstenite = "*"
futures-util = "*"
serde_json = "*"
anyhow = "*"
webrtc = "*"
