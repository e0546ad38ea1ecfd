[package]
name = "kv_store"
version = "0.1.0"
edition = "2021"
publish = false

[dependencies]
crc32fast = "1"
postcard = { version = "1", features = ["alloc"] }
serde = { version = "1", features = ["derive"] }
tokio = { version = "1", features = ["full"] }
uuid = { version = "1", features = ["v4", "serde"] }
