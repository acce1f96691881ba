[package]
name = "rust_scratch_pad"
version = "0.1.0"
edition = "2021"

[dependencies]
rand = "=0.8.8"
tokio = { version = "=1.54.1", features = ["full"] }
mini-redis = "=0.4.1"
bytes = "=1.12.1"
futures = "=0.3.34"
quote = "1"
syn = "2"
