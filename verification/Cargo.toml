[package]
name = "rqd"
version = "0.1.0"
edition = "2021"
publish = false

[dependencies]
winnow = "=0.7.15"
regex = "=1.13.1"
clap = { version = "=4.6.7", features = ["derive"] }
color-eyre = "=0.6.5"
eyre = "=0.6.14"
comfy-table = "=7.2.2"
promkit = "=0.8.0"
serde = { version = "=1.0.229", features = ["derive"] }
