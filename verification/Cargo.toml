[package]
name = "pixel_art"
version = "0.1.0"
edition = "2021"
publish = false

[dependencies]
anyhow = "*"
clap = { version = "*", features = ["derive"] }
image = "*"
kmeans_colors = "*"
palette = "*"
tracing = "*"
tracing-subscriber = "*"
