[package]
name = "weztui"
version = "0.1.0"
edition = "2021"
publish = false

[dependencies]
base64 = "0.22"
fuzzy-matcher = "0.3"
serde = { version = "1", features = ["derive"] }
serde_json = "1"
clap = { version = "4", features = ["derive"] }
color-eyre = "0.6"
crossterm = "0.28"
ratatui = "0.29"
tui-tree-widget = "0.23"
