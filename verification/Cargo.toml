[package]
name = "frostify-gfx"
version = "0.1.0"
edition = "2021"
publish = false

[dependencies]
bytemuck = { version = "=1.25.2", features = ["derive"] }
cosmic-text = "=0.19.0"
etagere = "=0.3.0"
log = "=0.4.35"
png = "=0.18.1"
pollster = "=1.0.1"
softbuffer = { version = "=0.4.8", default-features = false, features = ["x11", "x11-dlopen"] }
wgpu = { version = "29", default-features = false, features = ["std", "wgsl", "vulkan", "parking_lot"] }
winit = { version = "=0.30.13", default-features = false, features = ["x11", "rwh_06"] }
