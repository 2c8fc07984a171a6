[package]
name = "store"
version = "0.1.0"
edition = "2021"
publish = false

[dependencies]
anyhow = "1"
bevy = { version = "0.9", default-features = false }
bevy_renet = "0.0.6"
bincode = "1.3"
env_logger = "0.10"
itertools = "0.10"
log = "0.4"
renet = "0.0.10"
serde = { version = "1", features = ["derive"] }
