[package]
name = "scorched_earth"
version = "0.1.0"
edition = "2021"
publish = false

[dependencies]
rand = "0.8"
line_drawing = "*"
bytecount = "*"
noise = { version = "*", default-features = false }
