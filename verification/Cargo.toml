[package]
name = "molt"
version = "0.1.0"
edition = "2021"
publish = false

[dependencies]
url = "2"
serde = { version = "1", features = ["derive"] }
serde_json = "1"
rust-ini = "0.21"
tempfile = "3"
