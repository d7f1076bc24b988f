[package]
name = "localview"
version = "0.1.0"
edition = "2021"
publish = false

[dependencies]
url = "=2.5.8"
hmac = "=0.12.1"
sha2 = "=0.10.9"
hex = "=0.4.3"
base64 = "0.22"
serde = { version = "=1.0.229", features = ["derive"] }
serde_json = "=1.0.154"
tokio = { version = "=1.54.1", features = ["fs", "process", "io-util", "time", "rt", "macros", "sync"] }
anyhow = "=1.0.104"
uuid = { version = "=1.29.0", features = ["v4", "serde"] }
thiserror = "=2.0.21"
chrono = { version = "=0.4.45", default-features = false, features = ["clock", "serde"] }
