[package]
name = "spring_layout"
version = "0.1.0"
edition = "2021"
publish = false

[dependencies]
bytemuck = { version = "1", features = ["derive"] }
glam = "*"
pollster = "*"
rand = "*"
usvg = "0.22"
winit = "0.27"
