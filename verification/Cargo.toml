[package]
name = "rog_fan_curve"
version = "0.1.0"
edition = "2021"
publish = false

[dependencies]
serde = "1"
structopt = "0.3"
