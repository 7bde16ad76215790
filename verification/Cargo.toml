[package]
name = "conflate"
version = "0.1.0"
edition = "2021"
publish = false

[dependencies]
postgres = "*"
serde_json = "*"

[dev-dependencies]
postgis = "*"
