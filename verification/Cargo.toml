[package]
name = "seam_explorer"
version = "0.1.0"
edition = "2021"
publish = false

[dependencies]
petgraph = "*"
serde = { version = "1", features = ["derive"] }
serde_json = "1"
egui = "0.35"
eframe = { version = "0.35", default-features = false, features = ["default_fonts", "glow", "x11", "persistence"] }
egui_graphs = "0.31"
rfd = "*"
