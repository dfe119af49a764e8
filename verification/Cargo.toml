[package]
name = "netwatch"
version = "0.1.0"
edition = "2021"
publish = false

[dependencies]
anyhow = "1"
chrono = "0.4"
clap = { version = "4", features = ["derive"] }
crossterm = "0.27"
dirs = "5"
libc = "0.2"
ratatui = "0.26"
serde = { version = "1", features = ["derive"] }
thiserror = "1"
toml = "0.8"
