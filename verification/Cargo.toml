[package]
name = "cloudtun"
version = "0.1.0"
edition = "2021"
publish = false

[dependencies]
sha2 = "=0.10.9"
hmac = "=0.12.1"
chrono = "=0.4.45"
hickory-proto = { version = "=0.24.4", default-features = false }
serde = { version = "=1.0.229", features = ["derive"] }
serde_json = "=1.0.154"
http = "=1.5.0"
tokio = { version = "=1.54.1", features = ["rt-multi-thread", "macros", "net", "io-util", "fs", "time", "sync"] }
tokio-util = "=0.7.20"
reqwest = { version = "=0.12.28", default-features = false, features = ["json", "rustls-tls"] }
axum = { version = "=0.8.9", features = ["ws"] }
tokio-tungstenite = "=0.26.2"
futures-util = { version = "=0.3.34", features = ["sink"] }
hyper = { version = "=1.12.0", features = ["server", "http1"] }
hyper-util = { version = "=0.1.21", features = ["tokio"] }
