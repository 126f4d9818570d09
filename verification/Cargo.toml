[package]
name = "rustidy"
version = "0.1.0"
edition = "2021"
publish = false

[dependencies]
cargo_metadata = "*"
clap = { version = "4", features = ["derive"] }
