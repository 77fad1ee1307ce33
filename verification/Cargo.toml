[package]
name = "vod_segments"
version = "0.1.0"
edition = "2021"
publish = false

[dependencies]
regex = "=1.13.1"
reqwest = { version = "=0.12.28", default-features = false, features = ["json", "rustls-tls", "stream"] }
serde = { version = "=1.0.229", features = ["derive"] }
serde_json = "=1.0.154"
tokio = { version = "=1.54.1", features = ["fs", "io-util", "process", "rt-multi-thread", "time"] }
futures = "=0.3.34"
zip = { version = "*", default-features = false, features = ["deflate"] }
