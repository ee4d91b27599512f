[package]
name = "abd"
version = "0.1.0"
edition = "2021"

[dependencies]
ractor = "*"
tokio = { version = "1", features = ["macros", "rt-multi-thread", "time"] }
