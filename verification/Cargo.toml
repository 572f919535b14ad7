[package]
name = "my_library"
version = "0.1.0"
edition = "2021"
publish = false

[dependencies]
anyhow = "=1.0.104"
bevy = { version = "=0.12.1", default-features = false, features = ["bevy_asset"] }
