[package]
name = "pretense"
version = "0.1.0"
edition = "2021"
publish = false

[dependencies]
axum = "*"
eyre = "*"
futures = "*"
metrics = "*"
metrics-exporter-prometheus = { version = "*", default-features = false }
tokio = { version = "*", features = ["rt", "net"] }
tracing = "*"
tracing-subscriber = { version = "*", features = ["env-filter", "json"] }
