[package]
name = "wallsplit"
version = "0.1.0"
edition = "2021"
publish = false

[dependencies]
regex = "*"
magick_rust = "*"
