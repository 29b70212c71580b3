[package]
name = "string_ops"
version = "0.1.0"
edition = "2021"
publish = false

[dependencies]
regex = "1"
eyre = "0.6"
