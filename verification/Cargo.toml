[package]
name = "vanling"
version = "0.1.0"
edition = "2021"
publish = false

[dependencies]
rand = "=0.8.8"
fancy-regex = "*"
sentencex = "*"
serde = { version = "1", features = ["derive"] }
