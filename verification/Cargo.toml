[package]
name = "rlnc-simdx"
version = "1.2.1"
edition = "2021"
publish = false

[dependencies]
rayon = "1"
