[package]
name = "sweeper"
version = "0.1.0"
edition = "2021"
publish = false

[dependencies]
walkdir = "2"
fltk = "1"

[dev-dependencies]
tempfile = "3"
