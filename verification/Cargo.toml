[package]
name = "ferret"
version = "0.2.0"
edition = "2021"
publish = false

[dependencies]
anyhow = "*"
chrono = "*"
clap = { version = "*", features = ["derive"] }
colored = "*"
crossterm = "*"
dirs = "*"
humansize = "*"
indicatif = "*"
ratatui = "*"
rayon = "*"
regex = "*"
serde = { version = "*", features = ["derive"] }
serde_json = "*"
sha2 = "*"
terminal_size = "*"
toml = "*"
walkdir = "*"
