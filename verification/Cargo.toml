[package]
name = "csvlens"
version = "0.1.0"
edition = "2021"
publish = false

[dependencies]
csv = "=1.4.0"
tui = { version = "=0.19.0", default-features = false, features = ["termion"] }
termion = "=1.5.6"
