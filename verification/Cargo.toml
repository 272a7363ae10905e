[package]
name = "transakt"
version = "0.1.0"
edition = "2021"
publish = false

[dependencies]
csv = "1"
serde = { version = "1", features = ["derive"] }
log = "0.4"
env_logger = "*"
