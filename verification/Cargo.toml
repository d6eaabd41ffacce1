[package]
name = "figure_second"
version = "0.1.0"
edition = "2021"
publish = false

[dependencies]
quick-xml = "0.27"
base64 = "0.13"
image = { version = "0.24", default-features = false }
