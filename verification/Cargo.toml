[package]
name = "twodo_backend"
version = "0.1.0"
edition = "2021"
publish = false

[dependencies]
uuid = { version = "*", features = ["v4"] }
chrono = "*"
sha2 = "*"
base64 = "*"
getrandom = "*"
serde = { version = "*", features = ["derive"] }
serde_json = "*"
dotenvy = "*"
