[package]
name = "gpx_split"
version = "0.1.0"
edition = "2021"
publish = false

[dependencies]
geo = { version = "*", default-features = false }
geo-types = "*"
geographiclib-rs = "*"
gpx = "*"
clap = { version = "*", features = ["derive"] }
