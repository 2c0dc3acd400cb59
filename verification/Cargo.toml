[package]
name = "gemm_harness"
version = "0.1.0"
edition = "2021"
publish = false

[dependencies]
matrixmultiply = { version = "=0.3.11", features = ["cgemm"] }

[dev-dependencies]
ndarray = "=0.16.1"
num-complex = "=0.4.6"
