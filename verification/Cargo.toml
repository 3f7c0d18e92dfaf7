[package]
name = "ringrelay"
version = "0.1.0"
edition = "2021"
publish = false

[dependencies]
base64 = "=0.13.1"
steganography = "1.0"
image = { version = "*", default-features = false, features = ["png"] }
serde = { version = "1", features = ["derive"] }
serde_json = "1"
