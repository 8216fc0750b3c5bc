[package]
name = "daily_blocks"
version = "0.1.0"
edition = "2021"
publish = false

[dependencies]
bitcoin-explorer = "*"
chrono = "0.4"
color-eyre = "*"
itertools = "*"
serde = { version = "1", features = ["derive"] }
serde_json = "1"
