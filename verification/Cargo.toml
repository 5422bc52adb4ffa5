[package]
name = "mqdish"
version = "0.1.0"
edition = "2021"
publish = false

[dependencies]
async-trait = "0.1"
clap = { version = "4", features = ["derive"] }
dirs = "*"
lapin = "2"
openssl-probe = "0.1"
serde = { version = "1", features = ["derive"] }
serde_json = "1"
serde_yaml = "0.9"
thiserror = "1"
tokio = { version = "1", features = ["full"] }
tokio-stream = "0.1"
