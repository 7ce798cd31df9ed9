[package]
name = "bucket_auth"
version = "0.1.0"
edition = "2021"
publish = false

[dependencies]
orion = "*"
base64 = "*"
hex = "*"
chrono = "*"
nanoid = "*"
reqwest = { version = "*", default-features = false, features = ["blocking"] }
