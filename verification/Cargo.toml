[package]
name = "text_transformer"
version = "0.1.0"
edition = "2021"
publish = false

[dependencies]
env_logger = { version = "0.10", default-features = false }
log = "0.4"
