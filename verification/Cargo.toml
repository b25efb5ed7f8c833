[package]
name = "uiviewer"
version = "0.1.0"
edition = "2021"
publish = false

[dependencies]
base64 = "=0.22.1"
eframe = { version = "=0.35.0", default-features = false, features = ["glow", "default_fonts", "x11"] }
image = { version = "=0.25.10", default-features = false, features = ["png", "jpeg"] }
rfd = { version = "=0.17.2", default-features = false, features = ["xdg-portal"] }
roxmltree = "=0.21.2"
serde_json = "=1.0.154"
