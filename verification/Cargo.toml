[package]
name = "font_rasterizer"
version = "0.1.0"
edition = "2021"
publish = false

[dependencies]
dialoguer = "0.11"
eframe = { version = "0.29", default-features = false, features = ["default_fonts", "glow", "x11"] }
egui_extras = "0.29"
fontdue = "0.9"
png = "0.17"
rfd = "0.15"
