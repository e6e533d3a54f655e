[package]
name = "alpac"
version = "0.1.0"
edition = "2021"
publish = false

[dependencies]
openssl = "0.10"
url = "2"
curl = "0.4"
clap = "*"
serde = { version = "1", features = ["derive"] }
serde_yaml = "*"

[dev-dependencies]
hex = "0.4"
