[package]
name = "crev"
version = "0.1.0"
edition = "2021"
publish = false

[dependencies]
base64 = "*"
git2 = { version = "*", default-features = false }
serde = { version = "1", features = ["derive"] }
serde_yaml = "*"
