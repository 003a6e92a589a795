[package]
name = "prompt_store"
version = "0.1.0"
edition = "2021"
publish = false

[dependencies]
heed = "=0.11.0"
uuid = { version = "1", features = ["v4"] }
chrono = { version = "0.4", default-features = false, features = ["clock"] }

[dev-dependencies]
tempfile = "3"
