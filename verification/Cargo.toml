[package]
name = "twitch_chat"
version = "0.1.0"
edition = "2021"
publish = false

[dependencies]
anyhow = "*"
arboard = "*"
crossbeam = "*"
crossterm = "*"
unicode-segmentation = "*"
