[package]
name = "alfred"
version = "0.1.0"
edition = "2021"
publish = false

[dependencies]
alacritty_terminal = "0.24"
anyhow = "1"
clap = { version = "4", features = ["derive"] }
env_logger = "0.11"
glyphon = "0.7"
log = "0.4"
pollster = "0.4"
portable-pty = "0.9"
tokio = { version = "1", features = ["rt-multi-thread", "sync", "macros"] }
wgpu = "23"
winit = "0.30"
