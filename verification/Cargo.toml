[package]
name = "map18xx"
version = "0.1.0"
edition = "2021"
publish = false

[dependencies]
clap = "*"
nalgebra = "*"
serde = { version = "1", features = ["derive"] }
serde_yaml = "*"
svg = "*"
