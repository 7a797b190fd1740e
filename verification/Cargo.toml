[package]
name = "heft"
version = "0.1.0"
edition = "2021"
publish = false

[dependencies]
clap = { version = "4", features = ["derive"] }
crossterm = "*"
owo-colors = "4"
rayon = "1"
walkdir = "2"
