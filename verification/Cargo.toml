[package]
name = "bioimg"
version = "0.1.0"
edition = "2021"
publish = false

[dependencies]
unic = "=0.9.0"
