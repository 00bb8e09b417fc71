[package]
name = "rust_slint_sticky"
version = "0.1.0"
edition = "2021"
publish = false

[dependencies]
chrono = "0.4"
uuid = { version = "1", features = ["v4"] }
serde = { version = "1", features = ["derive"] }
serde_json = "1"
tokio = { version = "1", features = ["fs", "io-util", "macros", "rt-multi-thread"] }
dirs = "*"
slint = { version = "1", default-features = false, features = ["std", "compat-1-2"] }
