[package]
name = "banshee"
version = "0.1.2"
edition = "2021"
publish = false

[dependencies]
anyhow = "=1.0.104"
base64 = "=0.22.1"
chrono = { version = "=0.4.45", features = ["serde"] }
directories = "=6.0.0"
keyring = "=3.6.3"
reqwest = { version = "=0.12.28", default-features = false, features = ["json", "multipart", "rustls-tls"] }
rusqlite = { version = "=0.37.0", features = ["bundled"] }
serde = { version = "=1.0.229", features = ["derive"] }
serde_json = "=1.0.154"
tokio = { version = "=1.54.1", features = ["process", "macros", "rt-multi-thread", "fs"] }
uuid = { version = "=1.29.0", features = ["v4", "serde"] }
walkdir = "=2.5.0"
