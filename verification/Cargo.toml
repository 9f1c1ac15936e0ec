[package]
name = "zr-proxy"
version = "0.1.0"
edition = "2021"
publish = false

[dependencies]
arboard = { version = "3", default-features = false }
crossterm = "0.28"
ctrlc = "3"
directories = "5"
ratatui = "0.29"
serde = { version = "1", features = ["derive"] }
toml = "0.8"
