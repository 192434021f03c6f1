[package]
name = "trip_analyzer"
version = "0.1.0"
edition = "2021"
publish = false

[dependencies]
csv = "*"
hdrhistogram = "*"
serde = { version = "*", features = ["derive"] }
serde_json = "*"
clap = "*"

[dev-dependencies]
chrono = "*"
