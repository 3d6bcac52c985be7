[package]
name = "respstore"
version = "0.1.0"
edition = "2021"
publish = false

[dependencies]
bytes = "=1.12.1"
tokio = { version = "=1.54.1", features = ["full"] }

[dev-dependencies]
mini-redis = "=0.4.1"
