[package]
name = "stale_urls"
version = "0.1.0"
edition = "2021"
publish = false

[dependencies]
anyhow = "1"
percent-encoding = "2"
regex = "1"
terminal_size = "0.4"
xdg = "3"
