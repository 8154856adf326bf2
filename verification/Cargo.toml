[package]
name = "epg"
version = "0.1.0"
edition = "2021"
publish = false

[dependencies]
anyhow = "1"
chrono = "0.4"
clap = { version = "4", features = ["derive", "env"] }
crossterm = "0.28"
quick-xml = "0.37"
ratatui = "0.29"
rusqlite = { version = "0.32", features = ["bundled"] }
tempfile = "3"
unicode-width = "0.2"
ureq = "2"
