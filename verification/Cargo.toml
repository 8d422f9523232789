[package]
name = "rustx"
version = "0.1.0"
edition = "2021"
publish = false

[dependencies]
block-modes = "0.8"
des = "0.7"
