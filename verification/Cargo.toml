[package]
name = "simple_chatgpt"
version = "0.1.0"
edition = "2021"
publish = false

[dependencies]
clap = { version = "4", features = ["derive"] }
curl = "0.4"
futures = "0.3"
rustyline = "*"
serde = { version = "1", features = ["derive"] }
serde_json = "1"
