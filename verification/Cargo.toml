[package]
name = "fw"
version = "0.1.0"
edition = "2021"
publish = false

[dependencies]
anyhow = "1"
clap = { version = "4", features = ["derive"] }
directories = "*"
env_logger = "*"
figment = { version = "*", features = ["toml", "yaml", "json"] }
fwatch = "*"
log = "0.4"
serde = { version = "1", features = ["derive"] }
tokio = { version = "1", features = ["full"] }
