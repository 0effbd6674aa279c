[package]
name = "productui"
version = "0.1.0"
edition = "2021"
publish = false

[dependencies]
color-eyre = "=0.6.5"
crossterm = { version = "=0.29.0", features = ["event-stream"] }
octocrab = "=0.47.1"
open = "=5.4.4"
ratatui = "=0.30.2"
serde = { version = "=1.0.229", features = ["derive"] }
tokio = { version = "=1.53.2", features = ["full"] }
tokio-stream = "=0.1.19"
