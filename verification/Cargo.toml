[package]
name = "bevy_asky"
version = "0.5.0"
edition = "2021"
publish = false

[dependencies]
bevy = { version = "=0.17.3", default-features = false, features = ["std", "bevy_ui", "bevy_input_focus", "bevy_window"] }
thiserror = "=2.0.21"
accesskit = "=0.21.1"
