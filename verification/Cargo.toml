[package]
name = "hring"
version = "0.1.0"
edition = "2021"
publish = false

[dependencies]
eyre = "=0.6.14"
nom = "=7.1.3"
pretty-hex = "=0.3.0"
thiserror = "=1.0.69"
tracing = "=0.1.44"
