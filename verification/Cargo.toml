[package]
name = "msg_shaders"
version = "0.4.1"
edition = "2021"
publish = false

[dependencies]
bevy = { version = "=0.18.1", default-features = false, features = ["std", "bevy_asset", "bevy_log", "bevy_render", "bevy_core_pipeline", "bevy_sprite_render", "bevy_shader", "bevy_image", "bevy_mesh", "bevy_camera", "bevy_color"] }
smallvec = "=1.16.4"
