[package]
name = "insploray"
version = "0.1.0"
edition = "2021"
publish = false

[dependencies]
glam = "0.30"
rand = "0.9"
crossbeam = "0.8"
tobj = "4"
clap = { version = "4", features = ["derive"] }
indicatif = "0.17"
exr = "1"
