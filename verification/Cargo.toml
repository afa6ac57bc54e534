[package]
name = "pitwall"
version = "0.4.0"
edition = "2021"
publish = false

[dependencies]
anyhow = "1"
tokio = { version = "1", features = ["rt-multi-thread", "macros", "sync", "time", "process"] }
futures-util = "0.3"
ratatui = "0.30"
crossterm = { version = "0.29", features = ["event-stream"] }
bollard = "0.20"
serde = { version = "1", features = ["derive"] }
serde_json = "1"
humantime = "2"
libc = "0.2"
toml = "*"
unicode-width = "0.2"
