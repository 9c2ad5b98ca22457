[package]
name = "lockstep"
version = "0.1.0"
edition = "2021"
publish = false

[dependencies]
alkahest = { version = "0.3", features = ["derive"] }
byteorder = "1"
sdl2 = "0.35"
