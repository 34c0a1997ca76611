[package]
name = "managed_cache"
version = "0.1.0"
edition = "2021"
publish = false

[dependencies]
serde = { version = "*", features = ["derive"] }
serde_json = "*"
bincode = "1"
uuid = { version = "*", features = ["v4"] }
interruptible_polling = "*"
