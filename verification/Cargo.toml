[package]
name = "wzmapeditor"
version = "0.1.0"
edition = "2021"
publish = false

[dependencies]
log = "0.4"
env_logger = "0.11"
serde_json = "1"

[dev-dependencies]
serde_json = "1"
