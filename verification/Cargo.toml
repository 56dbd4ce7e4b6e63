[package]
name = "bulk_rename"
version = "0.1.0"
edition = "2021"
publish = false

[dependencies]
md-5 = "0.10"
sha1 = "0.10"
sha2 = "0.10"
base64ct = { version = "1", features = ["alloc"] }
faccess = "0.2"
egui = { version = "0.23", default-features = false }
eframe = { version = "0.23", default-features = false, features = ["default_fonts", "glow", "x11"] }
egui_extras = { version = "0.23", default-features = false }
