[package]
name = "dht_tools"
version = "0.1.0"
edition = "2021"
publish = false

[dependencies]
env_logger = "0.11"
plotters = "0.3"
rand = "0.8"
sha2 = "0.10"
tokio = { version = "1", features = ["full"] }
