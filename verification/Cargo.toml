[package]
name = "brew_settings"
version = "0.1.0"
edition = "2021"
publish = false

[dependencies]
dirs = "*"
os_info = "*"
serde = { version = "*", features = ["derive"] }
serde_json = "*"
