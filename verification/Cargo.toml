[package]
name = "protobench"
version = "0.1.0"
edition = "2021"
publish = false

[dependencies]
anyhow = "*"
axum = "*"
reqwest = { version = "*", default-features = false }
stats_alloc = "*"
tokio = { version = "*", features = ["full"] }
