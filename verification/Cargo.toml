[package]
name = "svg2tex_rs"
version = "0.1.1"
edition = "2021"
publish = false

[dependencies]
clap = { version = "4", features = ["derive"] }
flate2 = "1"
image = { version = "0.25", default-features = false, features = ["png", "jpeg", "gif", "webp"] }
resvg = "0.45"
roxmltree = "0.20"
tiny-skia = "0.11"
usvg = "0.45"
