[package]
name = "file_gateway"
version = "0.1.0"
edition = "2021"
publish = false

[dependencies]
mime_guess = "2"
axum = { version = "0.8", features = ["multipart"] }
clap = { version = "4", features = ["derive"] }
serde = { version = "1", features = ["derive"] }
serde_json = "1"
tokio = { version = "1", features = ["full"] }
tokio-util = { version = "0.7", features = ["io"] }
tower = "0.5"
tower-http = { version = "0.6", features = ["trace", "compression-gzip", "decompression-gzip"] }
tracing = "0.1"
tracing-subscriber = { version = "0.3", features = ["env-filter"] }
