[package]
name = "bac_nickname"
version = "0.1.0"
edition = "2021"
publish = false

[dependencies]
serde_json = "=1.0.151"
serde = { version = "=1.0.229", features = ["derive"] }
tokio = { version = "=1.53.2", features = ["full"] }
notify = "=8.2.0"
reqwest = { version = "=0.12.28", default-features = false, features = ["json", "rustls-tls"] }
