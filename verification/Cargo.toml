[package]
name = "advent2022"
version = "0.1.0"
edition = "2021"
publish = false

[dependencies]
bstr = "*"
clap = { version = "*", features = ["derive"] }
crossterm = "*"
prettytable-rs = "*"
rayon = "*"
