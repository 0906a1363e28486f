[package]
name = "token_analysis"
version = "0.1.0"
edition = "2021"
publish = false

[dependencies]
ahash = "=0.8.12"
rust-stemmers = "=1.2.0"
