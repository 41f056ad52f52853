[package]
name = "rar-chat"
version = "0.2.0"
edition = "2021"
publish = false

[dependencies]
anyhow = "1"
futures-util = { version = "0.3", default-features = false, features = ["std"] }
reqwest = { version = "0.12", default-features = false, features = ["json", "stream", "rustls-tls"] }
serde = { version = "1", features = ["derive"] }
serde_json = "1"
tokio = { version = "1", features = ["io-std", "io-util", "macros", "rt-multi-thread", "sync", "time"] }
tokio-util = "0.7"
