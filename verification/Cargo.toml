[package]
name = "bookmarks"
version = "0.1.0"
edition = "2021"
publish = false

[dependencies]
clipboard = "0.5"
crossterm = "0.25"
tui = "0.19"
