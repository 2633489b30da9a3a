[package]
name = "ragnotes"
version = "0.1.0"
edition = "2021"
publish = false

[dependencies]
ollama-rs = "*"
rusqlite = { version = "*", features = ["bundled"] }
tokio = { version = "*", features = ["rt"] }
