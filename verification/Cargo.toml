[package]
name = "common_library"
version = "0.1.0"
edition = "2021"
publish = false

[dependencies]
base64 = "*"
chrono = "*"
regex = "*"
reqwest = { version = "*", default-features = false }
serde_json = "*"
uuid = { version = "*", features = ["v4"] }
