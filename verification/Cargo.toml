[package]
name = "lotus_racer"
version = "0.1.0"
edition = "2021"
publish = false

[dependencies]
crc32fast = "1"
flate2 = "1"
serde = { version = "1", features = ["derive"] }
serde_json = "1"
rand = "0.8"
sdl2 = "0.37"
rodio = "0.22"
macroquad = "0.4"
