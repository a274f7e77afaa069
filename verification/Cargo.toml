[package]
name = "rinha_core"
version = "0.1.0"
edition = "2021"
publish = false

[dependencies]
anyhow = "*"
async-channel = "*"
axum = "*"
chrono = "=0.4.45"
crossbeam = "*"
reqwest = { version = "*", default-features = false }
serde = { version = "*", features = ["derive"] }
serde_json = "*"
sled = "=0.34.7"
tokio = { version = "=1.53.2", features = ["full"] }
