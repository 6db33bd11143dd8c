[package]
name = "llm_stream"
version = "0.1.0"
edition = "2021"
publish = false

[dependencies]
base64 = "0.22"
golem-rust = "1"
log = "0.4"
mime = "0.3"
reqwest = { version = "0.12", default-features = false, features = ["blocking"] }
serde = { version = "1", features = ["derive"] }
serde_json = "1"
thiserror = "1"
url = "2"
