[package]
name = "tokencalculation"
version = "0.1.0"
edition = "2021"
publish = false

[dependencies]
check-if-email-exists = "*"
tokio = { version = "*", features = ["rt-multi-thread"] }
serde_json = "*"
