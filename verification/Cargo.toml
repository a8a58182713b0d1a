[package]
name = "sortery"
version = "1.4.2"
edition = "2021"
publish = false

[dependencies]
chrono = { version = "0.4", default-features = false, features = ["clock", "std"] }
clap = "2"
colored = "2"
serde = { version = "1", features = ["derive"] }
serde_json = "1"
walkdir = "2"
