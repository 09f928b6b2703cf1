[package]
name = "distilled"
version = "0.1.0"
edition = "2021"
publish = false

[dependencies]
validator = "*"
serde_json = "*"
