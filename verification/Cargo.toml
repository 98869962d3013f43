[package]
name = "rdedup"
version = "0.1.0"
edition = "2021"
publish = false

[dependencies]
docopt = "=1.1.1"
image = "=0.19.0"
img_hash = "=2.1.0"
serde = "=1.0.229"
serde_derive = "=1.0.229"
