[package]
name = "rasterizer"
version = "0.1.0"
edition = "2021"

[dependencies]
winit = "0.29"
softbuffer = "0.4"
winit_input_helper = "0.16"
