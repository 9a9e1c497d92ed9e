[package]
name = "terminal_client"
version = "0.1.0"
edition = "2021"
publish = false

[dependencies]
chrono = "0.4"
crossterm = "0.27"
dateparser = "0.2"
dirs = "5"
ratatui = "0.27"
rustyline = { version = "14", features = ["derive"] }
