[package]
name = "stalzone-server-blocker"
version = "0.1.0"
edition = "2021"
publish = false

[dependencies]
anyhow = "1"
clap = { version = "4", features = ["derive"] }
crossterm = "0.28"
directories = "5"
libc = "0.2"
ratatui = "0.29"
regex = "1"
tokio = { version = "1", features = ["full"] }
