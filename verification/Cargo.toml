[package]
name = "freecell"
version = "0.1.0"
edition = "2021"
publish = false

[dependencies]
ggez = "0.6"
nalgebra = "0.29"
rand = "0.8"
