[package]
name = "emulsion"
version = "10.2.0"
edition = "2021"
publish = false

[dependencies]
lexical-sort = "=0.3.1"
rand = "=0.8.8"
toml = "=0.5.11"
serde = { version = "=1.0.229", features = ["derive"] }
clap = "=4.6.7"
directories = "=4.0.1"
sys-info = "=0.9.1"
kamadak-exif = "=0.5.5"
backtrace = "=0.3.77"
image = { version = "0.23", default-features = false, features = ["gif", "jpeg", "png", "pnm", "tga", "tiff", "webp", "bmp", "ico", "hdr"] }
