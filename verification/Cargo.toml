[package]
name = "stackaddr"
version = "0.1.0"
edition = "2021"
publish = false

[dependencies]
base32 = "=0.5.1"
base64 = "=0.23.1"
bytes = { version = "=1.12.1", features = ["serde"] }
mac-addr = { version = "=0.3.0", features = ["serde"] }
uuid = { version = "=1.29.0", features = ["v4", "serde"] }
serde = { version = "=1.0.229", features = ["derive"] }
serde_json = "=1.0.154"

[dev-dependencies]
rand = "=0.9.5"
