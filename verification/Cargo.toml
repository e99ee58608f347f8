[package]
name = "human_panic"
version = "0.1.0"
edition = "2021"
publish = false

[dependencies]
backtrace = "0.3"
chrono = "0.4"
os_info = "3"
uuid = { version = "1", features = ["v4"] }

[dev-dependencies]
toml = "0.8"
