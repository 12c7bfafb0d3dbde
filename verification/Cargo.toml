[package]
name = "dns_updater"
version = "0.1.0"
edition = "2021"
publish = false

[dependencies]
tokio = { version = "*", features = ["macros", "rt", "fs", "io-util", "sync", "time"] }
reqwest = { version = "*", default-features = false }
log = "*"
env_logger = "*"
