[package]
name = "tmv"
version = "0.1.0"
edition = "2021"
publish = false

[dependencies]
image = { version = "0.25", default-features = false, features = ["png", "jpeg"] }
bytemuck = { version = "1", features = ["derive"] }
glam = "0.25"
gltf = "1.4"
tobj = "4"
tokio = { version = "1", default-features = false, features = ["rt-multi-thread", "macros"] }
wgpu = { version = "0.19", default-features = false, features = ["wgsl"] }
egui = "0.26"
egui-wgpu = { version = "0.26", default-features = false }
