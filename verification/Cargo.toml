[package]
name = "waybar_manager"
version = "0.1.0"
edition = "2021"
publish = false

[dependencies]
anyhow = "*"
chrono = "*"
clap = { version = "*", features = ["derive"] }
colored = "*"
dirs = "*"
notify-rust = "*"
serde = { version = "*", features = ["derive"] }
serde_json = "*"
toml = "*"
