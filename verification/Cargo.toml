[package]
name = "just"
version = "0.1.0"
edition = "2021"
publish = false

[dependencies]
target = "*"
lexiclean = "*"
camino = "*"
