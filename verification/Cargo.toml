[package]
name = "subsonic_vault"
version = "0.1.0"
edition = "2021"
publish = false

[dependencies]
md-5 = "*"
rand = "*"
crossbeam = "*"
serde = { version = "*", features = ["derive"] }
serde_json = "*"
actix-web = "*"
env_logger = "*"
