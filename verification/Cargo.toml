[package]
name = "infr_cpu"
version = "0.1.0"
edition = "2021"
publish = false

[dependencies]
half = "2"
bytemuck = "1"
