[package]
name = "store"
version = "0.1.0"
edition = "2021"
publish = false

[dependencies]
bevy = { version = "0.9", default-features = false, features = ["bevy_render"] }
serde = { version = "1", features = ["derive"] }
