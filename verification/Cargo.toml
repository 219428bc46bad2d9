[package]
name = "rkb1_core"
version = "0.1.0"
edition = "2021"
publish = false

[dependencies]
critical-section = { version = "1", features = ["std"] }
lock_api = "0.4"
