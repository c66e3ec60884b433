[package]
name = "maptiles"
version = "0.1.0"
edition = "2021"
publish = false

[dependencies]
varint = "=0.9.0"
lyon = "=1.0.19"
nalgebra-glm = "*"
