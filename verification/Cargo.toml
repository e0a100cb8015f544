[package]
name = "elevation"
version = "0.1.0"
edition = "2021"
publish = false

[dependencies]
georaster = "*"
fs-err = "*"
rand = "*"
