[package]
name = "http_signatures"
version = "0.1.0"
edition = "2021"
publish = false

[dependencies]
base64 = "0.22"
hmac = "0.12"
hyper = "1"
rsa = { version = "0.9", features = ["sha2"] }
sha2 = "0.10"

[dev-dependencies]
rand = "0.8"
