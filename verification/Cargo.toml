[package]
name = "bg_theme"
version = "0.1.0"
edition = "2021"
publish = false

[dependencies]
anyhow = "=1.0.104"
fast_image_resize = { version = "=5.5.0", features = ["image"] }
image = "=0.25.10"
kmeans_colors = "=0.7.1"
palette = "=0.7.7"
rand = "=0.9.5"
