[package]
name = "pitch"
version = "0.1.0"
edition = "2021"
publish = false

[dependencies]
clap = { version = "4", features = ["derive"] }
cpal = "0.15"
file-format = "*"
num-complex = "0.4"
rustfft = "6"
wav = "1"
