[package]
name = "way_slope"
version = "0.1.0"
edition = "2021"
publish = false

[dependencies]
clap = { version = "4", features = ["derive"] }
fxhash = "0.2"
gdal = "*"
osmpbfreader = "*"
serde = { version = "1", features = ["derive"] }
serde_json = "1"
smartstring = "1"
