[package]
name = "shannon"
version = "0.1.0"
edition = "2021"
publish = false

[dependencies]
nalgebra = { version = "0.33", default-features = false, features = ["std"] }
rand = "0.8"
rand_distr = "0.4"
