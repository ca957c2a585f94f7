[package]
name = "engine"
version = "0.1.0"
edition = "2021"
publish = false

[dependencies]
anyhow = "1"
clap = { version = "4", features = ["derive"] }
crossterm = "*"
log = "0.4"
noise = "*"
openai = "*"
rand = { version = "0.9", features = ["small_rng"] }
ratatui = "*"
serde = { version = "1", features = ["derive"] }
serde_json = "1"
simplelog = "*"
tokio = { version = "1", features = ["rt-multi-thread"] }
