[package]
name = "squawkline"
version = "0.1.0"
edition = "2021"
publish = false

[dependencies]
async-channel = "=2.5.0"
base64 = "=0.22.1"
chrono = "=0.4.45"
futures = "=0.3.34"
gtk4 = "=0.9.7"
irc = { version = "=1.1.0", default-features = false, features = ["tls-rust", "channel-lists"] }
serde = { version = "=1.0.229", features = ["derive"] }
tokio = { version = "=1.54.1", features = ["rt-multi-thread", "macros"] }
toml = "=0.8.23"
