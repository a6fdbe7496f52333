[package]
name = "calcu_rs"
version = "0.1.0"
edition = "2021"
publish = false

[dependencies]
anyhow = "1"
chrono = { version = "0.4", features = ["serde"] }
clap = { version = "4", features = ["derive"] }
derive_builder = "0.20"
env_logger = "0.11"
log = "0.4"
pulldown-cmark = { version = "0.11", default-features = false }
regex = "1"
serde = { version = "1", features = ["derive"] }
tabled = "0.15"
termsize = "0.1"
toml = "0.8"
