[package]
name = "pathtracer"
version = "0.1.0"
edition = "2021"
publish = false

[dependencies]
rand = "=0.7.3"
num-traits = "=0.2.19"
rayon = "=1.12.0"
lazy_static = "=1.5.1"
image = "=0.23.14"
indicatif = { version = "0.17", features = ["rayon"] }
