[package]
name = "constructive"
version = "0.1.0"
edition = "2021"
publish = false

[dependencies]
glam = "*"
slab = "0.4"
itertools = "*"
ordered-float = "*"
