[package]
name = "morstilia"
version = "0.1.0"
edition = "2021"
publish = false

[dependencies]
anyhow = "=1.0.104"
serde = { version = "=1.0.229", features = ["derive"] }
serde_json = "=1.0.154"
shakmaty = "=0.29.4"
shakmaty-syzygy = "=0.27.0"
toml = "=1.1.8"
