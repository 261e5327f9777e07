[package]
name = "voxel_engine"
version = "0.1.0"
edition = "2021"
publish = false

[dependencies]
anyhow = "1"
block-mesh = "0.1.0"
bytemuck = { version = "1", features = ["derive"] }
cgmath = "0.18"
env_logger = "0.9"
image = { version = "0.24", default-features = false, features = ["png"] }
pollster = "0.2"
rayon = "1"
wgpu = "0.12"
winit = "0.26"
