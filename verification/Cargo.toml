[package]
name = "raidory"
version = "0.1.0"
edition = "2021"
publish = false

[dependencies]
bevy = { version = "=0.12.1", default-features = false }
bevy_pkv = "=0.9.1"
rand = "0.8"
web-sys = "0.3"
