[package]
name = "chord3"
version = "0.1.0"
edition = "2021"
publish = false

[dependencies]
pdf-canvas = "=0.7.0"
regex-syntax = { version = "=0.8.11", features = ["unicode-perl"] }

[dev-dependencies]
regex = "=1.13.1"
