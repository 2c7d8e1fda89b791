[package]
name = "iqdb-quantize"
version = "0.1.0"
edition = "2021"
publish = false

[dependencies]
iqdb-types = "*"
iqdb-distance = "*"
error-forge = "*"
tracing = "*"
