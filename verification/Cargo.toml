[package]
name = "aleka"
version = "0.1.0"
edition = "2021"
publish = false

[dependencies]
base64 = "*"
clap = { version = "*", features = ["derive"] }
env_logger = "*"
hex = "*"
log = "*"
serde = { version = "*", features = ["derive"] }
serde_json = "*"
