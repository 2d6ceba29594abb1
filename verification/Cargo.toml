[package]
name = "mkworld_tracker"
version = "0.1.0"
edition = "2021"
publish = false

[dependencies]
ocrs = "=0.8.1"
rten = "=0.13.1"
rten-imageproc = "=0.13.1"
anyhow = "=1.0.104"
regex = "=1.13.1"
image = { version = "=0.25.10", default-features = false, features = ["png"] }
xcap = "=0.9.8"
tokio = { version = "=1.54.1", features = ["full"] }
tokio-util = "=0.7.20"
tokio-stream = "=0.1.19"
futures = "=0.3.34"
axum = "=0.7.9"
tower-http = { version = "=0.5.2", features = ["cors", "fs"] }
serde = { version = "=1.0.229", features = ["derive"] }
serde_json = "=1.0.154"
reqwest = { version = "=0.12.28", default-features = false, features = ["rustls-tls"] }
