[package]
name = "game"
version = "0.1.0"
edition = "2021"
publish = false

[dependencies]
bincode = "=1.3.3"
futures = "0.3"
generational-arena = "=0.2.9"
half = { version = "=1.8.3", features = ["serde"] }
nalgebra = { version = "=0.21.1", features = ["serde-serialize"] }
rand = "=0.7.3"
sdl2 = { version = "=0.34.5", features = ["gfx", "ttf"] }
serde = { version = "1", features = ["derive"] }
tokio = { version = "=0.2.25", features = ["full"] }
