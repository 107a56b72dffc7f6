[package]
name = "ibsp"
version = "0.1.0"
edition = "2021"
publish = false

[dependencies]
bytemuck = { version = "1.4", features = ["derive"] }
cgmath = "0.17"
env_logger = "0.7"
futures = "0.3"
image = { version = "0.23", default-features = false, features = ["jpeg", "png", "tga"] }
wgpu = "0.6"
winit = "0.22"
zip = { version = "0.5", default-features = false, features = ["deflate"] }
