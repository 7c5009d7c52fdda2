[package]
name = "javascript_runner"
version = "0.1.0"
edition = "2021"
publish = false

[dependencies]
eframe = { version = "0.20", default-features = false, features = ["default_fonts", "glow"] }
egui = "0.20"
serde = { version = "1", features = ["derive"] }
