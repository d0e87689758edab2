[package]
name = "phys_3d"
version = "0.1.0"
edition = "2021"
publish = false

[dependencies]
nalgebra = { version = "0.32", default-features = false, features = ["std"] }
winit = { version = "0.29", default-features = false, features = ["x11", "rwh_05"] }
