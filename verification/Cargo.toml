[package]
name = "vtt"
version = "0.1.0"
edition = "2021"
publish = false

[dependencies]
uuid = { version = "1", features = ["v4"] }
serde = { version = "1", features = ["derive"] }
serde_json = "1"
thiserror = "2"
directories = "6"
sysinfo = "*"
parking_lot = "0.12"
cpal = "*"
enigo = "*"
arboard = "3"
reqwest = { version = "0.12", features = ["stream"] }
tokio = { version = "1", features = ["fs", "io-util", "rt"] }
futures-util = "0.3"
whisper-rs = "*"
