[package]
name = "ip_generator"
version = "0.1.0"
edition = "2021"
publish = false

[dependencies]
ipnet = "2"
tokio = { version = "1", features = ["macros", "rt-multi-thread"] }
futures = "0.3"
