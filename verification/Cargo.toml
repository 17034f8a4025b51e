[package]
name = "diffski"
version = "0.1.0"
edition = "2021"
publish = false

[dependencies]
ansi-to-tui = "*"
anyhow = "1"
clap = { version = "4", features = ["derive"] }
ratatui = "*"
