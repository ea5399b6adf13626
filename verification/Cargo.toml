[package]
name = "serde_zipson"
version = "0.1.0"
edition = "2021"

[dependencies]
chrono = { version = "0.4", default-features = false, features = ["std"] }
indexmap = "2"
serde = "1"

[dev-dependencies]
regex = "1"
