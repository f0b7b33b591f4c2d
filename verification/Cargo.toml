[package]
name = "event_bindings"
version = "0.1.0"
edition = "2021"
publish = false

[dependencies]
winit = "0.19"
serde = "1"
serde_derive = "1"
