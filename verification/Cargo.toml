[package]
name = "openai_inference"
version = "0.1.0"
edition = "2021"
publish = false

[dependencies]
async-trait = "0.1"
bytes = "1"
futures = "0.3"
reqwest = { version = "0.11", default-features = false, features = ["multipart", "stream"] }
serde = { version = "1", features = ["derive"] }
serde_json = "1"
url = "2"
