[package]
name = "pact_models"
version = "0.1.0"
edition = "2021"
publish = false

[dependencies]
ariadne = "=0.4.1"
semver = "=1.0.28"
serde = { version = "=1.0.229", features = ["derive"] }
anyhow = "=1.0.104"
regex = "=1.13.1"
kiss_xml = "=1.1.0"
serde_json = "=1.0.154"
base64 = "0.22"
chrono = { version = "0.4", default-features = false, features = ["std", "clock"] }
