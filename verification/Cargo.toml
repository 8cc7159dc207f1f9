[package]
name = "squoosh"
version = "0.1.0"
edition = "2021"
publish = false

[dependencies]
anyhow = "1"
crossbeam-channel = "0.5"
dunce = "1"
eframe = { version = "*", default-features = false, features = ["glow", "x11", "default_fonts"] }
fontdb = "*"
hqx = "*"
image = { version = "*", default-features = false, features = ["png", "gif", "bmp", "tiff", "webp"] }
imagequant = { version = "*", default-features = false }
kamadak-exif = "*"
mozjpeg-sys = { version = "*", default-features = false }
oxipng = { version = "*", default-features = false }
resize = "*"
resvg = "*"
rfd = "*"
rgb = "*"
serde = { version = "1", features = ["derive"] }
serde_json = "1"
skrifa = "*"
sys-locale = "*"
tempfile = "3"
