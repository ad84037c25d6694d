[package]
name = "ez_stack"
version = "0.1.0"
edition = "2021"
publish = false

[dependencies]
anyhow = "1"
dialoguer = "0.11"
serde = { version = "1", features = ["derive"] }
serde_json = "1"
