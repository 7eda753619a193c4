[package]
name = "batch_acceptance_app"
version = "0.1.0"
edition = "2021"
publish = false

[dependencies]
anyhow = "=1.0.104"
bincode = "=1.3.3"
chrono = "=0.4.45"
eframe = { version = "=0.29.1", default-features = false, features = ["default_fonts", "glow", "x11"] }
egui_extras = { version = "=0.29.1", default-features = false }
image = { version = "=0.25.10", default-features = false, features = ["jpeg"] }
imageproc = { version = "=0.25.1", default-features = false }
rayon = "=1.12.0"
regex = "1"
rfd = { version = "=0.15.4", default-features = false, features = ["gtk3"] }
serde = { version = "=1.0.229", features = ["derive"] }
serde_json = "=1.0.154"
walkdir = "=2.5.0"
