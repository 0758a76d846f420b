[package]
name = "verification-test"
version = "0.1.0"
edition = "2021"
publish = false

[dependencies]
anyhow = "1"
base64 = "0.22"
juniper = "0.16"
rsexp = "0.2"
serde = { version = "1", features = ["derive"] }
serde_json = "1"
