[package]
name = "intent_runtime"
version = "0.1.0"
edition = "2021"
publish = false

[dependencies]
sha2 = "=0.10.9"
ring = "=0.17.14"
base64 = "=0.22.1"
serde = { version = "=1.0.229", features = ["derive"] }
serde_json = "=1.0.154"
hickory-proto = "0.25"
rand = "0.9"
socket2 = "0.5"
tokio = { version = "1", features = ["net", "time", "rt", "io-util"] }
reqwest = { version = "0.12", default-features = false, features = ["rustls-tls", "http2"] }
