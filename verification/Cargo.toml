[package]
name = "polestar_models"
version = "0.1.0"
edition = "2021"
publish = false

[dependencies]
anyhow = "1"
im = "15"
petgraph = "0.6"
rand = "0.8"
