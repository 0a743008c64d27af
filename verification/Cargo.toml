[package]
name = "ogn_parser"
version = "0.1.0"
edition = "2021"
publish = false

[dependencies]
aprs-parser = "*"
pyo3 = "*"
serde = { version = "*", features = ["derive"] }
