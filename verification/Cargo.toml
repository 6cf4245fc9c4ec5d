[package]
name = "chatserver"
version = "0.1.0"
edition = "2021"
publish = false

[dependencies]
tokio = { version = "1", features = ["full"] }
crossterm = { version = "0.19", features = ["event-stream"] }
futures = "0.3"
structopt = "0.3"
env_logger = "0.8"
log = "0.4"
