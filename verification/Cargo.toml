[package]
name = "licensegate-rs"
version = "0.1.0"
edition = "2021"
publish = false

[dependencies]
base64 = "0.22"
chrono = "0.4"
openssl = "0.10"
reqwest = "0.12"
serde_json = "1"
thiserror = "1"
urlencoding = "2"
