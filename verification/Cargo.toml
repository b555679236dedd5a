[package]
name = "rhythm_engine"
version = "0.1.0"
edition = "2021"
publish = false

[dependencies]
itertools = "*"
noisy_float = "*"
tap = "*"
glam = "*"
