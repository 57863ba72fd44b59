[package]
name = "lux"
version = "0.1.0"
edition = "2021"
publish = false

[dependencies]
ropey = "1"
anyhow = "1"
serde = { version = "1", features = ["derive"] }
serde_json = "1"
dirs = "5"
tokio = { version = "1", features = ["rt", "fs", "io-util"] }
