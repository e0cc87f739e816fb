[package]
name = "fakeword"
version = "0.1.0"
edition = "2021"
publish = false

[dependencies]
rand = "0.8"
regex = "1"
serde = { version = "1", features = ["derive"] }
ron = "0.8"
rayon = "1"
indicatif = "0.17"
termion = "2"
bitflags = "1"
