[package]
name = "svg"
version = "0.1.0"
edition = "2021"
publish = false

[dependencies]
clap = { version = "4", features = ["derive"] }
png = "0.17"
tiny-skia = "0.11"
