[package]
name = "tui_do_ui"
version = "0.1.0"
edition = "2021"
publish = false

[dependencies]
unicode-width = "=0.2.0"
fuzzy-matcher = "=0.3.7"
url = "=2.5.8"
chrono = "=0.4.45"
crossterm = "=0.28.1"
ratatui = "=0.29.0"
comrak = "=0.59.0"
html2text = { version = "=0.17.4", features = ["css"] }
anyhow = "=1.0.104"
