[package]
name = "md_image_cleaner"
version = "0.1.0"
edition = "2021"
publish = false

[dependencies]
regex = "1"
iced = { version = "0.9", default-features = false, features = ["glow"] }
iced_graphics = { version = "0.8", features = ["font-source"] }
