[package]
name = "draco_core"
version = "0.1.0"
edition = "2021"
publish = false

[dependencies]
bytemuck = "1"
num-traits = "0.2"
