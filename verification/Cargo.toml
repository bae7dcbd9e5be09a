[package]
name = "stow"
version = "0.1.0"
edition = "2021"
publish = false

[dependencies]
color-eyre = "0.6"
crossterm = "0.28"
gif = "0.13"
ratatui = "0.29"
textwrap = "0.16"
tui-textarea = "0.7"
