[package]
name = "termfx"
version = "0.1.0"
edition = "2021"
publish = false

[dependencies]
rand = "0.8"
crossterm = "0.27"
console = "0.15"
image = { version = "0.24", default-features = false, features = ["png"] }
