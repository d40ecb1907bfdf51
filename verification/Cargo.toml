[package]
name = "particle_life"
version = "0.1.0"
edition = "2021"
publish = false

[dependencies]
bevy = { version = "=0.17.3", default-features = false, features = ["bevy_render", "bevy_core_pipeline", "bevy_sprite", "bevy_sprite_render", "bevy_ui", "bevy_ui_render", "bevy_text", "bevy_window", "bevy_asset", "bevy_log", "default_font", "multi_threaded", "sysinfo_plugin"] }
rand = "=0.9.5"
