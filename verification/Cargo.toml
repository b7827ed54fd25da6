[package]
name = "mazegame"
version = "0.1.0"
edition = "2021"
publish = false

[dependencies]
anyhow = "=1.0.104"
serde = { version = "=1.0.229", features = ["derive"] }
ron = "=0.8.1"
sdl2 = { version = "=0.37.0", features = ["ttf", "image"] }
egui = "=0.27.2"
egui_extras = "=0.27.2"
