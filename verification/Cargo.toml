[package]
name = "cheatu"
version = "0.1.0"
edition = "2021"
publish = false

[dependencies]
libc = "0.2"
serde_json = "1"
tungstenite = "*"
eframe = { version = "*", default-features = false, features = ["default_fonts", "glow", "wayland", "x11"] }
egui_extras = "*"
