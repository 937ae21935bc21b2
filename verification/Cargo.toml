[package]
name = "svg_mesh"
version = "0.1.0"
edition = "2021"
publish = false

[dependencies]
lyon = "0.17"
usvg = "0.20"
bytemuck = { version = "1", features = ["derive"] }
wgpu = "0.12"
winit = "0.26"
