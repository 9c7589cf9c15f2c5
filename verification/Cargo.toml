[package]
name = "lsmp3"
version = "0.1.0"
edition = "2021"
publish = false

[dependencies]
clap = { version = "*", features = ["derive"] }
id3 = "*"
serde = { version = "*", features = ["derive"] }
serde_json = "*"
tabled = "*"
walkdir = "*"
