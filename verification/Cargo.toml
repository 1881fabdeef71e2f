[package]
name = "particle_sim"
version = "0.1.0"
edition = "2021"
publish = false

[dependencies]
glam = "*"
glfw = "*"
glow = "*"
rand = "*"
