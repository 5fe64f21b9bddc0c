[package]
name = "cmux_tui"
version = "0.1.0"
edition = "2021"
publish = false

[dependencies]
anyhow = "=1.0.104"
chrono = "=0.4.45"
clap = { version = "=4.6.7", features = ["derive"] }
ratatui = "=0.29.0"
serialport = { version = "=4.10.1", default-features = false }
