[package]
name = "thriller_core"
version = "0.1.0"
edition = "2021"
publish = false

[dependencies]
smallvec = "1"
chrono = "0.4"
log = "0.4"
pyo3 = "0.21"
