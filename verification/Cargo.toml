[package]
name = "narrative_loom"
version = "0.1.0"
edition = "2021"
publish = false

[dependencies]
regex = "=1.13.1"
uuid = { version = "=1.29.1", features = ["v4"] }
strsim = "=0.11.1"
urlencoding = "=2.1.3"
serde = { version = "=1.0.229", features = ["derive"] }
serde_json = "=1.0.154"
chrono = "=0.4.45"
epub = "=2.1.6"
thiserror = "=1.0.69"
base64 = "0.22"
