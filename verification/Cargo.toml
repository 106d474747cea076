[package]
name = "tracking_client"
version = "0.1.0"
edition = "2021"
publish = false

[dependencies]
pyo3 = { version = "0.20", features = ["extension-module"] }
sentry = { version = "*", default-features = false }
tracing = "0.1"
tracing-subscriber = "0.3"
