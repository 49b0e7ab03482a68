[package]
name = "json_utils"
version = "0.1.0"
edition = "2021"
publish = false

[dependencies]
serde_json = { version = "=1.0.151", features = ["preserve_order"] }
arboard = "=3.6.1"
color-eyre = "=0.6.5"
crossterm = "=0.29.0"
notify = "=8.2.0"
ratatui = "=0.30.2"
tempfile = "=3.27.0"
