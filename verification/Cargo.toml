[package]
name = "bevy_spatial_egui"
version = "0.1.0"
edition = "2021"
publish = false

[dependencies]
bevy = { version = "0.16", default-features = false }
bevy_egui = { version = "0.34", default-features = false }
