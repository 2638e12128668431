[package]
name = "thesix"
version = "0.2.2"
edition = "2021"
publish = false

[dependencies]
tokio = { version = "1", features = ["sync", "time", "macros", "rt"] }
thiserror = "2"
dashmap = "6"
redis = { version = "*", default-features = false }
sled = "0.34"
