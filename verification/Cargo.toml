[package]
name = "arrow2"
version = "0.1.0"
edition = "2021"
publish = false

[dependencies]
simdutf8 = "0.1"
parquet2 = { version = "*", default-features = false }
pyo3 = "*"
