[package]
name = "spfiler"
version = "0.1.0"
edition = "2021"
publish = false

[dependencies]
uuid = { version = "=1.27.0", features = ["v4", "serde"] }
axum = { version = "=0.7.9", features = ["multipart"] }
tokio = { version = "1", features = ["rt-multi-thread", "macros", "fs", "net"] }
tokio-util = { version = "0.7", features = ["io", "codec"] }
tower = { version = "0.4", features = ["timeout", "util"] }
tower-http = { version = "0.5", features = ["limit", "trace"] }
serde = { version = "1", features = ["derive"] }
serde_json = "1"
tracing = "0.1"
tracing-subscriber = { version = "0.3", features = ["env-filter"] }
