[package]
name = "cartridge"
version = "0.1.0"
edition = "2021"
publish = false

[dependencies]
anyhow = "*"
clap = { version = "*", features = ["derive"] }
dirs = "*"
env_logger = "*"
glob = "*"
log = "*"
serde = { version = "*", features = ["derive"] }
toml = "*"
