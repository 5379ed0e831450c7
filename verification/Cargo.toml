[package]
name = "rustlibs"
version = "0.1.0"
edition = "2021"
publish = false

[dependencies]
dotenvy = "*"
glob = "*"
pyo3 = "*"

[dev-dependencies]
tempfile = "*"
