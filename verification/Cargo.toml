[package]
name = "typing_reader"
version = "0.1.0"
edition = "2021"
publish = false

[dependencies]
clap = { version = "3", features = ["derive"] }
crossterm = "0.25"
tui = "0.19"
stable-eyre = "0.2"
