[package]
name = "gstreamed"
version = "0.1.0"
edition = "2021"
publish = false

[dependencies]
fast_image_resize = "=5.5.0"
similari = { version = "=0.26.2", default-features = false }
image = { version = "=0.25.10", default-features = false, features = ["jpeg", "png"] }
imageproc = { version = "=0.25.1", default-features = false }
ab_glyph = "=0.2.32"
ndarray = "=0.16.1"
ort = { version = "=2.0.0-rc.15", default-features = false, features = ["std", "load-dynamic", "cuda"] }
gstreamer = "=0.23.7"
gstreamer-pbutils = "=0.23.5"
clap = { version = "=4.6.7", features = ["derive"] }
anyhow = "=1.0.104"
log = "=0.4.34"
tracing-subscriber = { version = "=0.3.23", features = ["env-filter"] }
