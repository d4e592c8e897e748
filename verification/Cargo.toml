[package]
name = "distprof"
version = "0.1.0"
edition = "2021"
publish = false

[dependencies]
anyhow = "*"
hsl = "*"
plotlib = "*"
rand = { version = "0.8", features = ["small_rng"] }
rustqubo = "*"
screwsat = "*"
