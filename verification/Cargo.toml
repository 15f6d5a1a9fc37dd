[package]
name = "kinematic_chain"
version = "0.1.0"
edition = "2021"
publish = false

[dependencies]
bevy = { version = "0.14", default-features = false, features = ["bevy_asset"] }
bevy_embedded_assets = "0.11"
rand = "0.8"
