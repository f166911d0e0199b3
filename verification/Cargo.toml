[package]
name = "rust3d"
version = "0.1.0"
edition = "2021"
publish = false

[dependencies]
rayon = "1"
sdl2 = "*"

[dev-dependencies]
rand = "0.8"
