[package]
name = "marshmallow"
version = "0.1.0"
edition = "2021"
publish = false

[dependencies]
anyhow = "1"
async-channel = "2"
chrono = { version = "0.4", features = ["serde"] }
crossbeam-channel = "0.5"
fast_image_resize = "*"
fs4 = "*"
gdk4 = "*"
gio = "*"
glib = "*"
gtk4 = "*"
image = { version = "0.25", default-features = false, features = ["jpeg", "png"] }
kamadak-exif = "*"
libadwaita = "*"
libheif-rs = "*"
lru = "*"
serde = { version = "1", features = ["derive"] }
serde_json = "1"
turbojpeg = "*"
walkdir = "2"
