[package]
name = "slidestep"
version = "0.1.0"
edition = "2021"
publish = false

[dependencies]
serde = { version = "*", features = ["derive"] }
ron = "*"
clap = { version = "*", features = ["derive"] }
