[package]
name = "chip8"
version = "0.1.0"
edition = "2021"
publish = false

[dependencies]
argh = "=0.1.19"
log = "=0.4.35"
fern = "=0.7.1"
chrono = "=0.4.45"
walkdir = "=2.5.0"
rustyline = "*"
