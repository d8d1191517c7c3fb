[package]
name = "shapesys"
version = "0.1.0"
edition = "2021"
publish = false

[dependencies]
vec_map = "*"
sfml = "*"
