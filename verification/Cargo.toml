[package]
name = "pixel_cart"
version = "0.1.0"
edition = "2021"
publish = false

[dependencies]
bevy = { version = "=0.9.1", default-features = false, features = ["bevy_asset", "bevy_core_pipeline", "bevy_render", "bevy_sprite", "bevy_winit", "x11"] }
bevy_editor_pls = "=0.2.0"
bevy_egui = "0.19"
ezing = "=0.2.1"
futures-lite = "=1.13.0"
image = { version = "=0.24.9", default-features = false, features = ["png"] }
iyes_loopless = "=0.9.1"
