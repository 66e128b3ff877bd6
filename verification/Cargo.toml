[package]
name = "pathtracer"
version = "0.1.0"
edition = "2021"
publish = false

[dependencies]
apricot = "*"
nalgebra-glm = "*"
obj = "0.10"
rand = { version = "0.8", features = ["small_rng"] }
rayon = "1"
