[package]
name = "lineview"
version = "0.1.0"
edition = "2021"
publish = false

[dependencies]
memmap = "0.7"
simdutf8 = "0.1"
clap = { version = "4", features = ["derive"] }
crossterm = "0.28"
ratatui = "0.29"
