[package]
name = "media_utils"
version = "0.1.0"
edition = "2021"
publish = false

[dependencies]
camino = "=1.2.6"
chrono = { version = "=0.4.45", features = ["serde"] }
clap = { version = "=4.6.7", features = ["derive"] }
eyre = "=0.6.14"
glob = "=0.3.4"
h264-reader = "=0.9.0"
serde = { version = "=1.0.229", features = ["derive"] }
serde_json = "=1.0.154"
thiserror = "=2.0.21"
tracing = "=0.1.44"
