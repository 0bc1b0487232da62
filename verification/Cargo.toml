[package]
name = "serde_cef"
version = "0.1.0"
edition = "2021"
publish = false

[dependencies]
chrono = "=0.4.45"
regex = "=1.13.1"
serde = { version = "=1.0.229", features = ["derive"] }
serde-value = "=0.6.0"
serde-value-flatten = "=0.1.0"
