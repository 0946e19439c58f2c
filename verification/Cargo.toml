[package]
name = "fathom"
version = "0.1.0"
edition = "2021"
publish = false

[dependencies]
bytemuck = { version = "1", features = ["derive"] }
glam = { version = "0.30", features = ["bytemuck"] }
numpy = "*"
pollster = "0.4"
pyo3 = "*"
thiserror = "2"
wgpu = "26"
winit = "0.30"
