[package]
name = "datagen"
version = "0.1.0"
edition = "2021"
publish = false

[dependencies]
rand = "0.8"
clap = "2"
csv = "1"
serde = { version = "1", features = ["derive"] }
serde_yaml = "0.8"
crc = "3"
byteorder = "1"
slugify = "0.1"
