[package]
name = "liquid_rust"
version = "0.1.0"
edition = "2021"
publish = false

[dependencies]
rustc-hash = "1.1.0"
itertools = "0.10"
