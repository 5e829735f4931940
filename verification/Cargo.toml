[package]
name = "gridsim"
version = "0.1.0"
edition = "2021"
publish = false

[dependencies]
ggez = "0.5"
cgmath = { version = "0.17", features = ["mint"] }
