[package]
name = "hawk_dove"
version = "0.1.0"
edition = "2021"
publish = false

[dependencies]
config = "0.15"
csv = "1"
plotters = { version = "0.3", default-features = false, features = ["bitmap_backend", "bitmap_encoder", "all_series", "all_elements"] }
rand = "0.9"
rayon = "1"
serde = { version = "1", features = ["derive"] }
walkdir = "2"
