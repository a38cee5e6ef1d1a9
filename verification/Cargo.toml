[package]
name = "red"
version = "0.1.0"
edition = "2021"
publish = false

[dependencies]
sanguine = "*"
termwiz = "*"
