[package]
name = "audio_editor"
version = "0.1.0"
edition = "2021"
publish = false

[dependencies]
audioadapter-buffers = "2"
bytemuck = { version = "1", features = ["derive"] }
cpal = "0.17"
env_logger = "0.11"
glyphon = "0.10"
hound = "3"
pollster = "0.4"
rfd = "0.17"
ron = "0.12"
rubato = "1"
serde = { version = "1", features = ["derive"] }
symphonia = { version = "0.5", features = ["mp3", "aac", "isomp4", "alac"] }
wgpu = "28"
winit = "0.30"
