[package]
name = "pino"
version = "0.1.0"
edition = "2021"
publish = false

[dependencies]
regex = "1"
flate2 = "1"
brotli = "*"
zstd = "0.13"
fastrand = "2"
time = "0.3"
serde_json = "1"
rusqlite = { version = "*", features = ["bundled"] }
tokio = { version = "1", features = ["full"] }
axum = "0.8"
http = "1"
reqwest = { version = "0.12", default-features = false, features = ["rustls-tls", "stream"] }
bytes = "1"
futures-util = "0.3"
async-stream = "0.3"
