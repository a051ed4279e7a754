[package]
name = "bitgrep"
version = "0.1.0"
edition = "2021"

[dependencies]
approx = "0.5"
clap = { version = "4", features = ["derive"] }
thiserror = "1"
