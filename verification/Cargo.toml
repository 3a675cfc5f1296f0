[package]
name = "pwa_container"
version = "0.1.0"
edition = "2021"
publish = false

[dependencies]
base64 = "0.22"
url = "2"
urlencoding = "2"
regex = "1"
flate2 = "1"
serde = { version = "1", features = ["derive"] }
serde_json = "1"
rusqlite = { version = "0.31", features = ["bundled"] }
chrono = "0.4"
uuid = { version = "1", features = ["v4"] }
reqwest = { version = "0.12", default-features = false, features = ["blocking", "json", "rustls-tls", "gzip"] }
tokio = { version = "1", features = ["full"] }
warp = "0.3"
bytes = "1"
futures-util = "0.3"
tokio-tungstenite = "0.21"
tokio-util = { version = "0.7", features = ["io"] }
mime_guess = "2"
dirs = "5"
log = "0.4"
anyhow = "1"
lazy_static = "1"
http = "1"
