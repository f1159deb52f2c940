[package]
name = "buzz_relay"
version = "0.1.0"
edition = "2021"
publish = false

[dependencies]
axum = { version = "0.8", features = ["ws"] }
bytes = "1"
futures-util = "0.3"
hyper = "1"
hyper-util = { version = "0.1", features = ["tokio"] }
metrics = "0.24"
metrics-exporter-prometheus = { version = "0.18", default-features = false, features = ["http-listener"] }
metrics-util = { version = "0.20", default-features = false }
nostr = "0.44"
serde = { version = "1", features = ["derive"] }
serde_json = "1"
tokio = { version = "1", features = ["full"] }
tokio-tungstenite = "0.30"
tower = { version = "0.5", features = ["util"] }
tower-http = { version = "0.6", features = ["cors", "limit", "fs", "trace"] }
tracing = "0.1"
tungstenite = "0.30"
