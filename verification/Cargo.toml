[package]
name = "european_mc"
version = "0.1.0"
edition = "2021"
publish = false

[dependencies]
csv = "1"
num_cpus = "1"
plotters = "0.3"
rand = "0.8"
rand_distr = "0.4"
serde = { version = "1", features = ["derive"] }
