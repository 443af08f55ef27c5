[package]
name = "raytracer"
version = "0.1.0"
edition = "2021"
publish = false

[dependencies]
uriparse = "=0.6.4"
itertools = "=0.10.5"
base64 = "=0.21.7"
anyhow = "=1.0.104"
gltf = { version = "=1.4.1", features = ["KHR_lights_punctual", "KHR_materials_ior"] }
image = { version = "=0.24.9", default-features = false, features = ["png", "jpeg"] }
clap = { version = "=4.6.7", features = ["derive"] }
concurrent-queue = "=2.5.0"
palette = "=0.7.7"
rand = "=0.8.8"
rand_xoshiro = "=0.6.0"
once_cell = "=1.21.4"
lazy_static = "=1.5.1"
const-str = "=0.5.7"
winit = "=0.28.7"
softbuffer = "0.3"
