[package]
name = "pyro"
version = "0.1.0"
edition = "2021"
publish = false

[dependencies]
chumsky = "*"
godot = "*"
nanoid = "*"
statig = "*"
