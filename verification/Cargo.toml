[package]
name = "ndlm"
version = "0.1.0"
edition = "2021"
publish = false

[dependencies]
rusttype = "0.9"
framebuffer = "0.3"
termion = "*"
hostname = "*"
drm = "*"
lazy_static = "1"
greetd_ipc = { version = "*", features = ["sync-codec"] }
