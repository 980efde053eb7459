[package]
name = "rredditr"
version = "0.1.0"
edition = "2021"
publish = false

[dependencies]
serde_json = "*"
chrono = "*"
redis = "*"
reqwest = { version = "*", default-features = false, features = ["blocking", "json"] }
log = "*"
env_logger = "*"
