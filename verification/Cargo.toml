[package]
name = "zg"
version = "0.1.0"
edition = "2021"
publish = false

[dependencies]
regex = "*"
glob = "*"
zip = { version = "*", default-features = false }
rayon = "*"
clap = { version = "*", features = ["derive"] }
anyhow = "*"
