[package]
name = "mkvmeta"
version = "0.1.0"
edition = "2021"
publish = false

[dependencies]
webm-iterable = "*"
