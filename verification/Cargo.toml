[package]
name = "ffsvm"
version = "0.1.0"
edition = "2021"
publish = false

[dependencies]
simd_aligned = "*"
