[package]
name = "fluid_sim"
version = "0.1.0"
edition = "2021"
publish = false

[dependencies]
anyhow = "1"
env_logger = "*"
log = "0.4"
pollster = "*"
winit = "0.30"
