[package]
name = "archive_inspector"
version = "0.1.0"
edition = "2021"
publish = false

[dependencies]
crossterm = "0.27"
ratatui = "0.27"
tui-textarea = "0.5"
tui-tree-widget = "0.21"
xml-rs = "0.8"
zip = { version = "0.6", default-features = false, features = ["deflate"] }
