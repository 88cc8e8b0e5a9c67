[package]
name = "gloom_scene"
version = "0.1.0"
edition = "2021"
publish = false

[dependencies]
gl = "*"
nalgebra-glm = "*"
