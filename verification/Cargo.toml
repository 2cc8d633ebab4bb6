[package]
name = "submora"
version = "0.1.1"
edition = "2021"
publish = false

[dependencies]
argon2 = "0.5"
url = "=2.5.8"
http = "=1.5.0"
scraper = "=0.29.0"
ego-tree = "=0.11.1"
metrics = "=0.24.6"
metrics-exporter-prometheus = { version = "=0.16.2", default-features = false }
axum = "=0.8.9"
reqwest = { version = "=0.12.28", default-features = false, features = ["stream"] }
tokio = { version = "=1.54.1", features = ["rt-multi-thread", "net", "time", "sync", "macros"] }
futures = "=0.3.34"
serde = { version = "=1.0.229", features = ["derive"] }
serde_json = "=1.0.154"
time = { version = "=0.3.55", features = ["formatting"] }
