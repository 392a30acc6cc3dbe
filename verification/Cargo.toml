[package]
name = "gapless_lossy_codec"
version = "0.1.0"
edition = "2021"
publish = false

[dependencies]
anyhow = "1"
claxon = "0.4"
crossbeam-channel = "0.5"
hound = "3"
rayon = "1"
