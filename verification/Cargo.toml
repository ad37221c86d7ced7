[package]
name = "aor1"
version = "0.1.0"
edition = "2021"
publish = false

[dependencies]
crossterm = "0.25"
tui = "0.19"
tui-textarea = "0.2"
