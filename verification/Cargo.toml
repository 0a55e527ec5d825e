[package]
name = "rudis"
version = "0.1.0"
edition = "2021"
publish = false

[dependencies]
bytes = "1"
tracing = { version = "0.1", default-features = false, features = ["std"] }
