[package]
name = "hearth"
version = "0.1.0"
edition = "2021"
publish = false

[dependencies]
bytemuck = "1"
half = "2"
matrixmultiply = "0.3"
memmap2 = "0.9"
pollster = "0.4"
rand = { version = "0.9", features = ["small_rng"] }
rayon = "1"
thiserror = "2"
wgpu = "29"
wide = "0.7"
