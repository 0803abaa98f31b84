[package]
name = "runner"
version = "0.1.0"
edition = "2021"
publish = false

[dependencies]
anyhow = "=1.0.104"
calloop = "=0.14.5"
calloop-wayland-source = "=0.4.1"
clap = { version = "=4.6.7", features = ["derive"] }
cosmic-text = "=0.19.0"
directories = "=6.0.0"
env_logger = "=0.11.11"
image = "=0.25.10"
log = "=0.4.34"
nucleo-matcher = "=0.3.1"
regex = "=1.13.1"
resvg = "=0.48.1"
serde = { version = "=1.0.229", features = ["derive"] }
serde_json = "=1.0.151"
smithay-client-toolkit = { version = "=0.21.1", default-features = false, features = ["calloop"] }
tiny-skia = "=0.12.0"
toml = "=1.1.7"
wayland-client = "=0.31.15"
xkbcommon = "=0.8.0"
