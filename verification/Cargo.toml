[package]
name = "power_automate_api"
version = "1.0.1"
edition = "2021"
publish = false

[dependencies]
axum = "0.5"
axum-server = "0.4"
parking_lot = "0.12"
serde = { version = "1", features = ["derive"] }
tokio = { version = "1", features = ["macros", "rt-multi-thread", "signal"] }
tracing = "0.1"
tracing-appender = "0.2"
tracing-subscriber = "0.3"
