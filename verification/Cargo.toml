[package]
name = "sbus"
version = "0.1.0"
edition = "2021"
publish = false

[dependencies]
tokio = { version = "*", features = ["full"] }
clap = { version = "*", features = ["derive"] }
comfy-table = "*"
csv = "*"
rustyline = { version = "*", features = ["derive"] }
shellwords = "*"
