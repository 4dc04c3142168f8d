[package]
name = "mempalace_core"
version = "0.1.0"
edition = "2021"
publish = false

[dependencies]
sha2 = "=0.10.9"
base64 = "=0.22.1"
rand = "=0.8.8"
regex = "=1.13.1"
serde_json = "=1.0.154"
serde = { version = "=1.0.229", features = ["derive"] }
chrono = "=0.4.45"
uuid = { version = "=1.29.0", features = ["v4"] }
anyhow = "=1.0.104"
glob = "0.3"
dirs = "5"
