[package]
name = "flashcard"
version = "0.1.0"
edition = "2021"
publish = false

[dependencies]
twox-hash = { version = "1.6", default-features = false }
crossterm = "0.10"
dirs = "2.0"
structopt = "0.3"
