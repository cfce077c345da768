[package]
name = "l2_order_book"
version = "0.1.0"
edition = "2021"
publish = false

[dependencies]
anyhow = "=1.0.104"
clap = "=4.6.7"
crossterm = { version = "=0.29.0", features = ["event-stream"] }
env_logger = "=0.11.11"
envconfig = "=0.11.1"
futures = "=0.3.34"
futures-util = "=0.3.34"
log = "=0.4.34"
ratatui = "=0.30.2"
serde = { version = "=1.0.229", features = ["derive"] }
serde_json = "=1.0.151"
tokio = { version = "=1.53.2", features = ["full"] }
tokio-tungstenite = "=0.30.0"
toml = "=1.1.7"
