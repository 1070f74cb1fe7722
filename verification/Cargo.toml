[package]
name = "merino_breakout"
version = "0.1.0"
edition = "2021"
publish = false

[dependencies]
rand = "0.9"
ciphers = "0.1.0"
dirs = "6"
users = "0.11"
bevy = { version = "0.16", default-features = false, features = ["std", "bevy_asset", "bevy_audio", "bevy_color", "bevy_core_pipeline", "bevy_render", "bevy_sprite", "bevy_state", "bevy_text", "bevy_window", "png"] }
