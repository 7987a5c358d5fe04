[package]
name = "onnx_http"
version = "0.1.0"
edition = "2021"
publish = false

[dependencies]
anyhow = "=1.0.104"
axum = "=0.8.9"
futures-util = "=0.3.34"
indicatif = "=0.18.6"
ndarray = "=0.17.2"
ort = { version = "=2.0.0-rc.15", features = ["load-dynamic", "qnn"] }
reqwest = { version = "=0.13.5", features = ["stream"] }
serde = { version = "=1.0.229", features = ["derive"] }
tokenizers = "=0.23.2"
tokio = { version = "=1.54.1", features = ["full"] }
tracing = "=0.1.44"
tracing-subscriber = { version = "=0.3.23", features = ["env-filter"] }
