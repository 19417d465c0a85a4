[package]
name = "clickthrough"
version = "0.1.0"
edition = "2021"
publish = false

[dependencies]
colorous = "*"
eframe = { version = "*", default-features = false, features = ["glow", "x11", "default_fonts"] }
egui = "*"
egui_plot = "*"
ndarray = "*"
ndarray-npy = "*"
num-complex = "*"
serde = { version = "*", features = ["derive"] }
serde_json = "*"
