[package]
name = "neuromancer"
version = "0.1.0"
edition = "2021"
publish = false

[dependencies]
ar-drivers = { version = "=0.4.3", default-features = false, features = ["nreal", "rusb"] }
eframe = { version = "=0.31.1", default-features = false, features = ["default_fonts", "glow", "x11"] }
libc = "=0.2.191"
nalgebra = "=0.32.6"
serde = { version = "=1.0.229", features = ["derive"] }
toml = "=0.8.23"
windows-sys = { version = "=0.59.0", features = ["Win32_System_Console", "Win32_UI_WindowsAndMessaging"] }
