[package]
name = "waterfall"
version = "0.1.0"
edition = "2021"
publish = false

[dependencies]
heatmap = "=0.3.0"
hsl = "=0.1.1"
lodepng = "=3.12.2"
rusttype = "=0.1.2"
