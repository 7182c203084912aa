[package]
name = "guee"
version = "0.1.0"
edition = "2021"
publish = false

[dependencies]
itertools = "0.11"
epaint = "0.22"
winit = "0.28"
