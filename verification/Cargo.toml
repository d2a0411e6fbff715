[package]
name = "rollback_core"
version = "0.1.0"
edition = "2021"
publish = false

[dependencies]
backroll = "=0.2.0"
backroll_transport_udp = "=0.1.0"
bevy = { version = "=0.5.0", default-features = false, features = ["render", "bevy_winit", "bevy_wgpu", "x11"] }
darling = "=0.10.2"
