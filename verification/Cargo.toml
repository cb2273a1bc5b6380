[package]
name = "webpipe"
version = "0.1.0"
edition = "2021"
publish = false

[dependencies]
serde_json = { version = "=1.0.154", features = ["float_roundtrip"] }
argon2 = "=0.5.3"
rand = "=0.8.8"
hex = "=0.4.3"
