[package]
name = "css_scoper"
version = "0.1.0"
edition = "2021"
publish = false

[dependencies]
rsass = "*"
