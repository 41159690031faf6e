[package]
name = "openapi_gen"
version = "0.1.0"
edition = "2021"
publish = false

[dependencies]
serde_json = "*"
serde_yaml = "*"
serde = { version = "*", features = ["derive"] }
log = "*"
env_logger = "*"
tokio = { version = "*", features = ["rt", "rt-multi-thread", "macros", "fs"] }
reqwest = { version = "*", default-features = false }
