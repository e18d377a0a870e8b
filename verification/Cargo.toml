[package]
name = "embedded_fonts"
version = "0.1.0"
edition = "2021"
publish = false

[dependencies]
bdf-parser = "*"
embedded-graphics = "0.7"
clap = "4"
ignore = "0.4"
quote = "1"
syn = { version = "2", features = ["full", "visit"] }
