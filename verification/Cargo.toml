[package]
name = "lattice_rect"
version = "0.1.0"
edition = "2021"
publish = false

[dependencies]
itertools = "*"
raqote = { version = "*", default-features = false, features = ["png"] }
