[package]
name = "locate_points"
version = "0.1.0"
edition = "2021"
publish = false

[dependencies]
bincode = "1"
cgmath = "0.17"
chrono = "0.4"
clap = "2"
csv = "1"
failure = "0.1"
geo = "0.12"
geo-types = "0.4"
geojson = "0.16"
indicatif = "0.11"
log = "0.4"
serde = { version = "1", features = ["derive"] }
serde_json = "1"
simplelog = "0.6"
spade = "1.8"
