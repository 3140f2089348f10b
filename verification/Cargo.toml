[package]
name = "miniarrow_schema"
version = "0.1.0"
edition = "2021"
publish = false

[dependencies]
ahash = { version = "0.8", default-features = false }
indexmap = "2"
serde = { version = "1", features = ["derive", "rc"] }

[dev-dependencies]
serde_json = "1"
