[package]
name = "universal-devops-converter"
version = "0.1.0"
edition = "2021"
publish = false

[dependencies]
quick-xml = "0.37"
serde = { version = "1", features = ["derive"] }
serde_json = "1"
clap = { version = "4", features = ["derive", "env"] }
log = "0.4"
env_logger = "0.11"
thiserror = "2"
