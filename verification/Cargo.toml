[package]
name = "merge_my_gpx"
version = "0.1.0"
edition = "2021"
publish = false

[dependencies]
gpx = "*"
clap = { version = "*", features = ["derive"] }
color-eyre = "*"
eyre = "*"
