[package]
name = "hologram_exec"
version = "0.1.0"
edition = "2021"
publish = false

[dependencies]
bytemuck = "=1.25.2"
rayon = "1"
rkyv = "0.8"
