[package]
name = "pointcloud"
version = "0.1.0"
edition = "2021"
publish = false

[dependencies]
glow = "0.14"
glam = "=0.29.3"
