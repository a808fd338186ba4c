[package]
name = "rdbg"
version = "0.3.0"
edition = "2021"
publish = false

[dependencies]
serde_json = "1"
