[package]
name = "catppuccinifier"
version = "0.1.0"
edition = "2021"
publish = false

[dependencies]
lutgen-palettes = "*"
image = "*"
serde = { version = "*", features = ["derive"] }
