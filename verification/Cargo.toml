[package]
name = "quad_bezier"
version = "0.1.0"
edition = "2021"
publish = false
