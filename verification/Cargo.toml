[package]
name = "moreau_jean"
version = "0.1.0"
edition = "2021"
publish = false

[dependencies]
slab = "*"
nalgebra = { version = "*", default-features = false, features = ["std"] }
