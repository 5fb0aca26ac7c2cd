[package]
name = "daimon"
version = "0.1.0"
edition = "2021"
publish = false

[dependencies]
async-stream = "0.3"
futures = "0.3"
itoa = "=1.0.18"
prost = "=0.14.4"
qdrant-client = { version = "=1.20.0", default-features = false }
redis = { version = "=1.8.1", features = ["tokio-comp", "connection-manager"] }
reqwest = { version = "=0.12.28", default-features = false, features = ["json", "rustls-tls", "stream"] }
rusqlite = { version = "=0.41.1", features = ["bundled"] }
ryu = "=1.0.23"
serde = { version = "1", features = ["derive"] }
serde_json = "=1.0.154"
tokio = { version = "1", features = ["full"] }
tokio-tungstenite = "=0.30.0"
tokio-util = "0.7"
tonic = "=0.14.9"
tonic-prost = "=0.14.9"
tracing = "0.1"
