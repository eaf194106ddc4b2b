[package]
name = "smtp_client"
version = "0.1.0"
edition = "2021"
publish = false

[dependencies]
base64 = "*"
chrono = "*"
openssl = "*"
uuid = { version = "*", features = ["v4"] }
