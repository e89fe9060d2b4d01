[package]
name = "ha-ndarray"
version = "0.1.0"
edition = "2021"
publish = false

[dependencies]
ocl = "0.19"
rayon = "1"
safecast = "*"
