[package]
name = "ltsr"
version = "0.1.0"
edition = "2021"
publish = false

[dependencies]
rand = "*"
exr = "*"
anyhow = "*"
smallvec = "*"
