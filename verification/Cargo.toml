[package]
name = "bevy_dragndrop"
version = "0.1.0"
edition = "2021"
publish = false

[dependencies]
bitflags = "2"
bevy = { version = "=0.14.2", default-features = false }
