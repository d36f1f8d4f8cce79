[package]
name = "rebarr"
version = "0.1.0"
edition = "2021"
publish = false

[dependencies]
uuid = { version = "=1.29.0", features = ["v4", "v5"] }
regex = "=1.13.1"
chrono = "=0.4.45"
strsim = "=0.11.1"
serde = { version = "=1.0.229", features = ["derive"] }
serde_json = "=1.0.154"
governor = "=0.10.4"
nonzero_ext = "=0.3.0"
reqwest = { version = "=0.13.5", default-features = false }
tokio = { version = "=1.54.1", features = ["time", "sync"] }
humantime = "*"
