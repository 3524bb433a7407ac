[package]
name = "rust-py-rate-limit"
version = "0.2.2"
edition = "2021"
publish = false

[dependencies]
dashmap = "6"
pyo3 = { version = "0.23", features = ["extension-module"] }
serde = { version = "1", features = ["derive"] }
serde_json = "1"
thiserror = "2"
