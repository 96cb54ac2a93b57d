[package]
name = "gocortex"
version = "0.1.0"
edition = "2021"
publish = false

[dependencies]
dotenvy = "*"
openai = "*"
tiktoken-rs = "*"
tokio = { version = "1", features = ["full"] }
