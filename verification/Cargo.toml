[package]
name = "svd_compile"
version = "0.1.0"
edition = "2021"
publish = false

[dependencies]
cast = "=0.2.7"
clap = "=2.34.0"
error-chain = "=0.11.0"
inflections = "=1.1.1"
quote = "=0.3.15"
svd-parser = { version = "=0.14.10", features = ["expand"] }
syn = "=0.11.11"
