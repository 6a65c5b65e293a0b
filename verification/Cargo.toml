[package]
name = "ggengine"
version = "0.1.0"
edition = "2021"
publish = false

[dependencies]
bitflags = "1"
sdl2 = { version = "0.37", features = ["mixer", "ttf", "image"] }
serde = { version = "1", features = ["derive"] }
serde-big-array = "0.5"
serde_cbor = "0.11"
