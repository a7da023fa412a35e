[package]
name = "libgoban"
version = "0.1.0"
edition = "2021"
publish = false

[dependencies]
goban = "*"
pyo3 = { version = "*", features = ["extension-module"] }
