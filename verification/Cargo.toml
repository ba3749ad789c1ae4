[package]
name = "jxr_native"
version = "0.1.0"
edition = "2021"
publish = false

[dependencies]
fearless_simd = "=1.2.0"
