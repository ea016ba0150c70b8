[package]
name = "identity_agent"
version = "0.1.0"
edition = "2021"
publish = false

[dependencies]
base64 = "=0.21.7"
cesrox = "=2.0.0-beta.8"
flutter_rust_bridge = { version = "=2.13.0", default-features = false }
keri-core = "=0.18.0"
serde = { version = "=1.0.229", features = ["derive"] }
serde_json = "=1.0.154"
