[package]
name = "netflow-collector"
version = "0.1.0"
edition = "2021"
publish = false

[dependencies]
anyhow = "1"
arc-swap = "1"
chrono = "0.4"
clap = { version = "4", features = ["derive"] }
netflow_parser = "*"
serde = { version = "1", features = ["derive"] }
socket2 = "*"
tokio = { version = "1", features = ["full"] }
tokio-postgres = { version = "0.7", features = ["with-chrono-0_4"] }
toml = "*"
tracing = "0.1"
tracing-subscriber = { version = "0.3", features = ["env-filter"] }
