[package]
name = "colorgetter"
version = "0.1.0"
edition = "2021"
publish = false

[dependencies]
heapless = "0.9"
rand = "0.9"
itertools = "0.14"
bimap = "0.6"
serde = { version = "1", features = ["derive"] }
serde_json = "1"
clap = { version = "4", features = ["derive"] }
crossterm = "0.28"
