[package]
name = "doter"
version = "0.1.0"
edition = "2021"
publish = false

[dependencies]
clap = { version = "*", features = ["derive"] }
deser-hjson = "*"
dirs = "*"
miette = "*"
serde = { version = "*", features = ["derive"] }
thiserror = "*"
walkdir = "*"
