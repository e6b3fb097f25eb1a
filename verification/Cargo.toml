[package]
name = "iptv-speed-tester"
version = "3.0.0"
edition = "2021"
publish = false

[dependencies]
axum = "0.7"
chrono = "0.4"
chrono-tz = "0.10"
clap = { version = "4", features = ["derive", "env"] }
cron = "0.12"
futures-util = "0.3"
once_cell = "1"
regex = "1"
reqwest = { version = "0.12", default-features = false, features = ["json", "stream", "rustls-tls"] }
serde_json = "1"
tokio = { version = "1", features = ["full"] }
url = "2"
