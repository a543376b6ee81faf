[package]
name = "common_tools"
version = "0.1.0"
edition = "2021"
publish = false

[dependencies]
regex = "*"
glob = "*"
chrono = "*"
ignore = "*"
serde = { version = "*", features = ["derive"] }
serde_json = "*"
