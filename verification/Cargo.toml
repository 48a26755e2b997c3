[package]
name = "midi_bridge"
version = "0.1.0"
edition = "2021"
publish = false

[dependencies]
crossbeam-channel = "0.5"
midir = "0.10"
once_cell = "1"
serde = { version = "1", features = ["derive"] }
serde_json = "1"
spin_sleep = "1"
winit = { version = "0.30", features = ["rwh_05"] }
