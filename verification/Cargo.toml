[package]
name = "ollama_shepherd"
version = "0.2.1"
edition = "2021"
publish = false

[dependencies]
crossterm = "*"
ratatui = "*"
serde = { version = "1", features = ["derive"] }
serde_json = "1"
tui-piechart = "*"
ureq = { version = "2", features = ["json"] }
