[package]
name = "refmon"
version = "0.1.0"
edition = "2021"
publish = false

[dependencies]
chrono = "0.4"
jsonwebtoken = "9"
tokio = { version = "1", features = ["macros", "rt-multi-thread"] }
tonic = "*"
tonic-health = "*"
