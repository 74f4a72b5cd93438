[package]
name = "json_instance"
version = "0.1.0"
edition = "2021"
publish = false

[dependencies]
ahash = "=0.8.12"
jiter = "=0.18.0"
num-bigint = "=0.4.8"
num-cmp = "=0.1.0"
num-traits = "=0.2.19"
pyo3 = { version = "=0.30.1", features = ["num-bigint"] }
serde_json = { version = "=1.0.154", features = ["float_roundtrip"] }
