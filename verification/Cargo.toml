[package]
name = "simulation"
version = "0.1.0"
edition = "2021"
publish = false

[dependencies]
macroquad = { version = "0.4", default-features = false }
rand = "0.9"
noise = "0.9"
serde = { version = "1", features = ["derive"] }
serde_json = "1"
