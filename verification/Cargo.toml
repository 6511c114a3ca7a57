[package]
name = "windot"
version = "0.1.0"
edition = "2021"
publish = false

[dependencies]
emojis = "*"
dirs = "*"
