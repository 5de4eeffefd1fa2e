[package]
name = "agent_receiver"
version = "0.1.0"
edition = "2021"
publish = false

[dependencies]
base64 = "=0.13.1"
reqwest = { version = "=0.11.27", default-features = false, features = ["blocking", "rustls-tls", "multipart"] }

[dev-dependencies]
serde_json = "=1.0.151"
