[package]
name = "rust_crawler"
version = "0.1.0"
edition = "2021"
publish = false

[dependencies]
regex = "1"
num_cpus = "1"
reqwest = { version = "0.11", features = ["blocking"] }
tokio = { version = "1", features = ["full"] }
