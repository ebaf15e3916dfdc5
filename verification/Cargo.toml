[package]
name = "rview"
version = "0.1.0"
edition = "2021"
publish = false

[dependencies]
anyhow = "=1.0.104"
clap = { version = "=4.6.7", features = ["derive"] }
crossterm = "=0.29.0"
glam = "0.30"
obj-rs = "=0.7.4"
terminal_size = "=0.4.4"
