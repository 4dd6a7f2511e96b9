[package]
name = "dagon"
version = "0.2.0"
edition = "2021"
publish = false

[dependencies]
rand = "*"
rayon = "*"
rmp-serialize = "*"
rustc-serialize = "*"
