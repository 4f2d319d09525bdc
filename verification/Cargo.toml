[package]
name = "freecad"
version = "0.1.0"
edition = "2021"
publish = false

[dependencies]
quick-xml = "0.37"
zip = { version = "2", default-features = false, features = ["deflate"] }
glam = "0.29"
wgpu = "25"
pollster = "0.4"
raw-window-handle = "0.6"
jni = "0.21"
