[package]
name = "chat_relay"
version = "0.1.0"
edition = "2021"
publish = false

[dependencies]
serde_json = "1"
serde = { version = "1", features = ["derive"] }
futures-util = { version = "0.3", default-features = false, features = ["std"] }
reqwest = { version = "0.12", default-features = false, features = ["json", "stream", "rustls-tls"] }
tauri = { version = "2", default-features = false }
