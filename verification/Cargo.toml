[package]
name = "turtle-harbor"
version = "0.6.2"
edition = "2021"
publish = false

[dependencies]
anyhow = "1"
axum = "0.8"
chrono = { version = "=0.4.45", features = ["serde"] }
clap = { version = "4", features = ["derive"] }
colored = "=3.1.1"
cron = "=0.17.0"
dirs = "=7.0.0"
flate2 = "=1.1.10"
libc = "0.2"
reqwest = { version = "0.12", default-features = false, features = ["json", "rustls-tls"] }
serde = { version = "1", features = ["derive"] }
serde_json = "1"
serde_yml = "=0.0.13"
tar = "=0.4.46"
tempfile = "3"
thiserror = "=2.0.21"
tokio = { version = "1", features = ["full"] }
tracing = "0.1"
tracing-appender = "0.2"
tracing-subscriber = { version = "0.3", features = ["env-filter", "json", "time"] }
