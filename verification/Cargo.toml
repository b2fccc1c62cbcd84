[package]
name = "regex_utf16"
version = "0.1.0"
edition = "2021"
publish = false

[dependencies]
regex = "1"
regex-syntax = "0.8"
serde = { version = "1", features = ["derive"] }
