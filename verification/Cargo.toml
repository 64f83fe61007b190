[package]
name = "boids"
version = "0.1.0"
edition = "2021"
publish = false

[dependencies]
oktree = { version = "=0.5.1", default-features = false }
strum = { version = "0.27", features = ["derive"] }
clap = { version = "4", features = ["derive"] }
rand = "0.9"
