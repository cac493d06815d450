[package]
name = "treee"
version = "0.1.0"
edition = "2021"
publish = false

[dependencies]
regex = "*"
anyhow = "*"
atty = "*"
chrono = "*"
clap = { version = "*", features = ["derive"] }
colored = "*"
