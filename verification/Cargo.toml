[package]
name = "renderer_streaming"
version = "0.1.0"
edition = "2021"
publish = false

[dependencies]
crossbeam-channel = "*"
ash = "*"
vk-mem = "*"
arrayvec = "*"
