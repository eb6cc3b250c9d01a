[package]
name = "slisp"
version = "0.1.0"
edition = "2021"
publish = false

[dependencies]
rustc_apfloat = "*"
log = "*"
env_logger = "*"
