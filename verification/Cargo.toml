[package]
name = "seam_carving"
version = "0.1.0"
edition = "2021"
publish = false

[dependencies]
rayon = "1"
image = "0.24"
indicatif = "0.17"
