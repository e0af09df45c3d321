[package]
name = "formauth"
version = "0.1.0"
edition = "2021"
publish = false

[dependencies]
base64 = "0.22"
chrono = "0.4"
ed25519-dalek = "2"
jsonwebtoken = "9"
rand = "0.8"
uuid = { version = "1", features = ["v4"] }
