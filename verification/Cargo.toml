[package]
name = "anodium"
version = "0.1.0"
edition = "2021"
publish = false

[dependencies]
smithay = { version = "0.3", default-features = false, features = ["wayland_frontend"] }
slog = "2"
