[package]
name = "converge-domain"
version = "0.1.0"
edition = "2021"
publish = false

[dependencies]
converge-core = "=3.7.6"
