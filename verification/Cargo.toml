[package]
name = "rgit"
version = "0.1.0"
edition = "2021"
publish = false

[dependencies]
sha1 = "*"
flate2 = "*"
hex = "*"
chrono = "*"
clap = { version = "*", features = ["derive"] }
anyhow = "*"
