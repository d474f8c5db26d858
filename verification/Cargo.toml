[package]
name = "quodex"
version = "0.1.9"
edition = "2021"
publish = false

[dependencies]
serde = { version = "1", features = ["derive"] }
serde_json = "1"
tauri = { version = "2.12", default-features = false, features = ["wry", "tray-icon"] }
thiserror = "2"
tokio = { version = "1", default-features = false, features = ["io-util", "process", "rt", "time"] }
