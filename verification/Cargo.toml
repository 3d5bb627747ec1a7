[package]
name = "pulsar_registry"
version = "0.1.0"
edition = "2021"
publish = false

[dependencies]
uuid = { version = "=1.27.0", features = ["v7"] }
serde = { version = "=1.0.229", features = ["derive"] }
axum = "=0.8.9"
tokio = { version = "=1.53.2", features = ["full"] }
tower = "=0.5.3"
tower-http = { version = "=0.7.1", features = ["trace", "compression-gzip", "limit", "validate-request", "auth"] }
