[package]
name = "ovejas"
version = "0.1.0"
edition = "2021"
publish = false

[dependencies]
md-5 = "*"
serde = { version = "*", features = ["derive"] }
serde_json = "*"
tungstenite = "*"
