[package]
name = "lut_mapper"
version = "0.1.0"
edition = "2021"
publish = false

[dependencies]
eframe = { version = "*", default-features = false, features = ["wgpu", "default_fonts", "x11"] }
egui_extras = { version = "*", default-features = false }
image = { version = "*", default-features = false, features = ["png", "jpeg", "tiff"] }
rayon = "*"
num_cpus = "*"
threadpool = "*"
pollster = "*"
bytemuck = { version = "*", features = ["derive"] }
rfd = "*"
