[package]
name = "sdesign"
version = "0.1.0"
edition = "2021"
publish = false

[dependencies]
ab_glyph = "=0.2.32"
anyhow = "1"
arboard = { version = "=3.7.0", default-features = false }
earcutr = "=0.5.0"
eframe = { version = "=0.37.0", default-features = false, features = ["default_fonts", "glow", "x11"] }
egui = "=0.37.0"
epaint_default_fonts = "=0.37.0"
geo = "=0.33.1"
serde = { version = "1", features = ["derive"] }
serde_json = "1"
tiny-skia = "=0.12.0"
