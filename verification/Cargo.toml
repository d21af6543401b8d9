[package]
name = "sdf_atlas"
version = "0.1.0"
edition = "2021"
publish = false

[dependencies]
rect_packer = "*"
freetype-rs = "*"
roots = "*"
