[package]
name = "manifest"
version = "0.1.0"
edition = "2021"
publish = false

[dependencies]
glob = "0.3"
regex = "1"
clap = { version = "4", features = ["derive"] }
serde = { version = "1", features = ["derive"] }
serde_yaml = "0.9"
walkdir = "2"
eyre = "0.6"
log = "0.4"
env_logger = "0.11"
chrono = "0.4"
