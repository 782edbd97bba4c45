[package]
name = "pomo"
version = "0.1.0"
edition = "2021"
publish = false

[dependencies]
chrono = "*"
crossterm = "*"
directories = "*"
ratatui = "*"
serde = { version = "*", features = ["derive"] }
serde_json = "*"
