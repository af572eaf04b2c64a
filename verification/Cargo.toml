[package]
name = "drogue_endpoint"
version = "0.1.0"
edition = "2021"
publish = false

[dependencies]
tokio = { version = "1", features = ["sync", "rt", "time"] }
actix = "0.13"
actix-broker = "0.4"
actix-web = "4"
actix-web-actors = "4"
serde = { version = "1", features = ["derive"] }
serde_json = "1"
log = "0.4"
env_logger = "0.11"
anyhow = "1"
envconfig = "0.10"
dotenv = "0.15"
