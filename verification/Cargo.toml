[package]
name = "nora_upkeep"
version = "0.1.0"
edition = "2021"
publish = false

[dependencies]
axum = "=0.8.9"
flate2 = "=1.1.10"
futures = "=0.3.34"
hex = "=0.4.3"
prometheus = { version = "=0.13.4", default-features = false }
rpm = { version = "=0.30.2", default-features = false, features = ["payload"] }
serde = { version = "=1.0.229", features = ["derive"] }
serde_json = "=1.0.154"
sha2 = "=0.10.9"
tokio = { version = "=1.54.1", features = ["rt", "macros", "sync", "time"] }
tokio-util = "=0.7.20"
tracing = "=0.1.44"
