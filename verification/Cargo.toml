[package]
name = "ssq_tool"
version = "0.1.0"
edition = "2021"
publish = false

[dependencies]
fp-growth = "*"
rand = "*"
serde = { version = "*", features = ["derive"] }
serde_json = "*"
chrono = "*"
