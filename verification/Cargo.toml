[package]
name = "abgen_serve"
version = "0.1.0"
edition = "2021"
publish = false

[dependencies]
anyhow = "1"
bytemuck = { version = "1", features = ["derive"] }
pollster = "0.4"
rayon = "1"
serde_json = "1"
wgpu = "23"
