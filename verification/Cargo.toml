[package]
name = "sfo"
version = "0.1.0"
edition = "2021"
publish = false

[dependencies]
clap = { version = "=4.6.7", features = ["derive"] }
eframe = { version = "=0.33.3", default-features = false, features = ["default_fonts", "glow", "x11"] }
egui-typed-input = "=0.1.3"
rfd = { version = "=0.17.2", default-features = false, features = ["xdg-portal"] }
thiserror = "=2.0.21"
