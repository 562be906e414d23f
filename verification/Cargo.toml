[package]
name = "rcli"
version = "0.1.0"
edition = "2021"
publish = false

[dependencies]
base64 = "0.22"
rand = "0.8"
clap = { version = "4", features = ["derive"] }
anyhow = "1"

[dev-dependencies]
serde_json = "1"
serde_yaml = "0.9"
toml = "0.8"
csv = "1"
