[package]
name = "recon"
version = "0.1.0"
edition = "2021"
publish = false

[dependencies]
regex = "1"
ratatui = { version = "0.29", default-features = false }
crossterm = "0.28"
toml_edit = "0.22"
toml = "0.8"
serde = { version = "1", features = ["derive"] }
clap = { version = "4", features = ["derive", "env"] }
