[package]
name = "blue"
version = "0.1.0"
edition = "2021"
publish = false

[dependencies]
anyhow = "1"
camino = "1"
clap = { version = "4", features = ["derive"] }
crop = { version = "0.4", features = ["graphemes"] }
crossterm = "0.28"
pathdiff = { version = "0.2", features = ["camino"] }
ratatui = "0.29"
shellwords = "1"
unicode-width = "0.2"
