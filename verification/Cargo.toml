[package]
name = "menu_shell"
version = "0.1.0"
edition = "2021"
publish = false

[dependencies]
failure = "0.1"
termion = "1.5"
tui = "0.6"
