[package]
name = "spinmc"
version = "0.1.0"
edition = "2021"
publish = false

[dependencies]
rand = "*"
rand_core = "*"
rand_pcg = "*"
rand_distr = "*"
serde = { version = "*", features = ["derive"] }
toml = "*"
anyhow = "*"
clap = { version = "*", features = ["derive"] }
rayon = "*"
