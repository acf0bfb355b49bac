[package]
name = "frame_scheduler"
version = "0.1.0"
edition = "2021"
publish = false

[dependencies]
wgpu = "0.14"
winit = "0.27"
bytemuck = { version = "1", features = ["derive"] }
pollster = "0.2"
env_logger = "0.10"
async-trait = "0.1"
