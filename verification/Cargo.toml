[package]
name = "macrokid_graphics"
version = "0.1.0"
edition = "2021"
publish = false

[dependencies]
glam = "=0.24.2"
syn = { version = "=2.0.119", features = ["full"] }
quote = "=1.0.47"
proc-macro2 = "=1.0.107"
ash = "=0.37.3"
ash-window = "=0.12.0"
raw-window-handle = "=0.5.2"
winit = "=0.28.7"
