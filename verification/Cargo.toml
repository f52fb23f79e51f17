[package]
name = "way_small"
version = "0.1.0"
edition = "2021"
publish = false

[dependencies]
anyhow = "1"
clap = { version = "4", features = ["derive"] }
dirs = "6"
glow = "0.16"
glutin = "0.32"
glutin-winit = "0.5"
libc = "0.2"
raw-window-handle = "0.6"
serde = { version = "1", features = ["derive"] }
tokio = { version = "1", features = ["full"] }
tokio-util = "0.7"
toml = "0.8"
tracing = "0.1"
tracing-subscriber = "0.3"
winit = "0.30"
xcursor = "0.3"
xkbcommon = "0.8"
