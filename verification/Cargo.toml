[package]
name = "lycan"
version = "0.1.0"
edition = "2021"
publish = false

[dependencies]
rand = "=0.8.5"
serde = { version = "*", features = ["derive"] }
serde_json = "*"
uuid = "*"
