[package]
name = "herdr-hunks"
version = "0.0.1"
edition = "2021"
publish = false

[dependencies]
unicode-width = "0.2"
crossterm = "0.29"
ratatui = "*"
serde = { version = "1", features = ["derive"] }
serde_json = "1"
toml = "*"
tokio = { version = "1", features = ["rt-multi-thread", "sync", "time", "macros"] }
dirs = "*"
libc = "0.2"
thiserror = "*"
