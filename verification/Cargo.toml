[package]
name = "tei_manager"
version = "0.1.0"
edition = "2021"
publish = false

[dependencies]
anyhow = "=1.0.104"
arrow = { version = "=60.1.0", default-features = false, features = ["ipc", "ipc_compression"] }
async-trait = "=0.1.92"
axum = "=0.8.9"
axum-server = { version = "=0.8.0", default-features = false, features = ["tls-rustls-no-provider"] }
chrono = { version = "=0.4.45", features = ["serde"] }
clap = { version = "=4.6.7", features = ["derive", "env"] }
dashmap = "=6.2.1"
futures = "=0.3.34"
half = "=2.7.1"
metrics = "=0.24.6"
metrics-exporter-prometheus = { version = "=0.18.3", default-features = false }
nix = { version = "=0.31.3", features = ["signal", "process"] }
rustls = { version = "=0.23.46", default-features = false, features = ["logging", "ring", "std", "tls12"] }
rustls-pemfile = "=2.2.0"
serde = { version = "=1.0.229", features = ["derive"] }
serde_json = "=1.0.154"
thiserror = "=2.0.21"
tokio = { version = "=1.54.1", features = ["full"] }
tokio-stream = { version = "=0.1.19", features = ["net"] }
toml = "=1.1.8"
tonic = { version = "=0.14.9", features = ["tls-ring"] }
tower = "=0.5.3"
tower-http = { version = "=0.6.11", features = ["cors", "trace"] }
tracing = "=0.1.44"
tracing-subscriber = { version = "=0.3.23", features = ["env-filter", "json"] }
urlencoding = "=2.1.3"
x509-parser = { version = "=0.18.1", features = ["verify"] }
