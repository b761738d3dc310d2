[package]
name = "miplog"
version = "0.1.0"
edition = "2021"
publish = false

[dependencies]
regex = "1"
serde = { version = "1", features = ["derive"] }
serde_json = "1"
flate2 = "1"
clap = { version = "4", features = ["derive"] }
thiserror = "1"
pyo3 = { version = "0.22", features = ["abi3-py38", "extension-module"] }
pythonize = "0.22"
