[package]
name = "tmux_dart"
version = "0.1.9"
edition = "2021"
publish = false

[dependencies]
anyhow = "1"
libc = "0.2"
tempfile = "3"
unicode-segmentation = "1"
unicode-width = "0.2"
