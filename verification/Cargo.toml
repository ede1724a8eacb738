[package]
name = "gesture_universe"
version = "0.1.0"
edition = "2021"
publish = false

[dependencies]
fast_image_resize = "*"
crossbeam-channel = "*"
anyhow = "*"
log = "*"
env_logger = "*"
yuv = "*"
zune-jpeg = "*"
