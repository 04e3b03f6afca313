[package]
name = "blocked_gemm"
version = "0.1.0"
edition = "2021"
publish = false

[dependencies]
dyn-stack = "*"
rayon = "*"
