[package]
name = "notebook_rag"
version = "0.1.0"
edition = "2021"
publish = false

[dependencies]
uuid = { version = "*", features = ["v4"] }
chrono = "*"
pdf-extract = "*"
anyhow = "*"
fastembed = "*"
ollama-rs = "*"
tokio = { version = "*", features = ["rt-multi-thread", "macros"] }
