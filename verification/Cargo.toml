[package]
name = "tank_duel"
version = "0.1.0"
edition = "2021"
publish = false

[dependencies]
rand = "0.7"
noise = { version = "0.6", default-features = false }
cgmath = "0.17"
ggez = "0.5"
