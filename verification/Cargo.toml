[package]
name = "xl"
version = "0.1.0"
edition = "2021"
publish = false

[dependencies]
anyhow = "1"
thiserror = "1"
tempfile = "3"
clap = { version = "4", features = ["derive"] }
inkwell = "*"

[dev-dependencies]
logos = "0.12"
