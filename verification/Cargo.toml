[package]
name = "stable_fluids"
version = "0.1.0"
edition = "2021"

[dependencies]
log = "0.4"
wgpu = "0.14"
winit = "0.27"
