[package]
name = "losig"
version = "0.1.0"
edition = "2021"
publish = false

[dependencies]
grid = { version = "=1.0.1", features = ["serde"] }
rand = "=0.9.5"
serde = { version = "=1.0.229", features = ["derive"] }
bincode = "=1.3.3"
tungstenite = "=0.30.0"
log = "=0.4.35"
env_logger = "=0.11.11"
anyhow = "=1.0.104"
tiled = { version = "=0.16.0", default-features = false }
