[package]
name = "sdr_dsp"
version = "0.1.0"
edition = "2021"
publish = false

[dependencies]
bytemuck = { version = "=1.25.2", features = ["derive"] }
hound = "3"
pollster = "=0.4.0"
rustfft = "=6.4.1"
tracing = "=0.1.44"
wgpu = "=29.0.4"
