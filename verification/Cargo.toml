[package]
name = "gravity_sim"
version = "0.1.0"
edition = "2021"

[dependencies]
csv = "1"
macroquad = "0.4"
rayon = "1"
