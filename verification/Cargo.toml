[package]
name = "xdg_terminals"
version = "0.1.0"
edition = "2021"
publish = false

[dependencies]
freedesktop_entry_parser = "*"
which = "*"
xdg = "*"
