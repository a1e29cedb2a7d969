[package]
name = "creature_sim"
version = "0.1.0"
edition = "2021"
publish = false

[dependencies]
macroquad = "0.4"
base64 = "0.22"
strum = "0.26"
strum_macros = "0.26"
