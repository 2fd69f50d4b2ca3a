[package]
name = "stacker"
version = "0.1.0"
edition = "2021"
publish = false

[dependencies]
burn = { version = "0.16", default-features = false, features = ["std", "ndarray", "autodiff"] }
bytemuck = "1"
image = { version = "0.25", default-features = false, features = ["png", "jpeg", "tiff"] }
nalgebra = "*"
rayon = "1"
serde = { version = "1", features = ["derive"] }
serde_json = "1"
smol = "2"
thiserror = "2"
tracing = "0.1"
