[package]
name = "diagview"
version = "0.1.0"
edition = "2021"
publish = false

[dependencies]
ariadne = "0.4"
crossterm = "*"
env_logger = "*"
serde = { version = "*", features = ["derive"] }
serde_json = "*"
