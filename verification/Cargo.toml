[package]
name = "algexeno_cistercian"
version = "0.1.0"
edition = "2021"
publish = false

[dependencies]
algexenotation = "*"
