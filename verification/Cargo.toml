[package]
name = "aichat_core"
version = "0.1.0"
edition = "2021"
publish = false

[dependencies]
serde = { version = "=1.0.229", features = ["derive"] }
serde_json = { version = "=1.0.154", features = ["preserve_order"] }
anyhow = "=1.0.104"
unicode-width = "=0.2.3"
sha2 = "=0.10.9"
hmac = "=0.12.1"
fancy-regex = "=0.14.0"
chrono = { version = "=0.4.45", default-features = false, features = ["clock"] }
reqwest = { version = "=0.12.28", default-features = false, features = ["json", "stream"] }
rayon = "=1.12.0"
aws-smithy-eventstream = "=0.60.21"
futures-util = "=0.3.34"
bytes = "=1.12.1"
jsonic = "=0.2.14"
inquire = "=0.9.4"
duct = "=1.1.2"
base64 = "0.22"
