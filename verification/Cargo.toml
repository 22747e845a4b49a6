[package]
name = "cdc_router"
version = "0.1.0"
edition = "2021"
publish = false

[dependencies]
regex = "*"
serde_json = "*"
serde = { version = "*", features = ["derive"] }
serde_yaml = "*"
rdkafka = "*"
tokio = { version = "*", features = ["full"] }
axum = "*"
prometheus-client = "*"
tracing = "*"
tracing-subscriber = "*"
chrono = "*"
futures = "*"
