[package]
name = "anim"
version = "0.1.0"
edition = "2021"
publish = false

[dependencies]
nalgebra-glm = "=0.21.0"
obj-rs = "*"
