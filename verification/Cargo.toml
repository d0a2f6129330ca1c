[package]
name = "viture_v2"
version = "0.1.0"
edition = "2021"
publish = false

[dependencies]
miniz_oxide = { version = "*", features = ["with-alloc"] }
glam = "*"
