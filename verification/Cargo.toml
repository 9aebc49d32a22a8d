[package]
name = "gooey"
version = "0.1.0"
edition = "2021"
publish = false

[dependencies]
chrono = "0.4"
dirs = "6"
encoding_rs = "0.8"
env_logger = "0.11"
log = "0.4"
serde = { version = "1", features = ["derive"] }
serde_json = "1"
unicode-width = "0.2"
ureq = "2"
