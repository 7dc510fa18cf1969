[package]
name = "render_assets"
version = "0.1.0"
edition = "2021"
publish = false

[dependencies]
tobj = "=4.0.5"
image = "=0.25.10"
anyhow = "1"
log = "0.4"
env_logger = "=0.11.11"
pollster = "=1.0.1"
threadpool = "=1.8.1"
assets_manager = { version = "=0.13.10", features = ["hot-reloading"] }
wgpu = "=30.0.1"
winit = "=0.30.13"
glam = "=0.30.10"
encase = { version = "=0.11.2", features = ["glam"] }
