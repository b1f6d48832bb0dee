[package]
name = "petphrase"
version = "0.1.0"
edition = "2021"
publish = false

[dependencies]
arboard = { version = "*", default-features = false }
auto-launch = "*"
serde = { version = "1", features = ["derive"] }
serde_json = "1"
single-instance = "*"
