[package]
name = "dezoomify"
version = "0.1.0"
edition = "2021"
publish = false

[dependencies]
image = "*"
reqwest = { version = "*", features = ["blocking"] }
rayon = "*"
indicatif = "*"
structopt = "*"
