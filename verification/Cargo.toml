[package]
name = "hippogriph"
version = "0.1.0"
edition = "2021"
publish = false

[dependencies]
aes = "0.8"
hex = "0.4"
rayon = "1"
clap = { version = "4", features = ["derive"] }
