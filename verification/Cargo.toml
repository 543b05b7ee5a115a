[package]
name = "partly_claudy"
version = "0.1.0"
edition = "2021"
publish = false

[dependencies]
chrono = { version = "=0.4.45", features = ["serde"] }
clap = { version = "=4.6.7", features = ["derive"] }
color-eyre = "=0.6.5"
crossterm = { version = "=0.29.0", features = ["event-stream"] }
futures = "=0.3.34"
opaline = "=0.4.2"
ratatui = "=0.30.2"
reqwest = { version = "=0.12.28", default-features = false, features = ["json", "rustls-tls"] }
serde = { version = "=1.0.229", features = ["derive"] }
serde_json = "=1.0.154"
tokio = { version = "=1.54.1", features = ["rt-multi-thread", "macros", "sync", "time", "fs"] }
toml = "=0.8.23"
tui-overlay = "=0.1.2"
tui-skeleton = "=0.3.0"
