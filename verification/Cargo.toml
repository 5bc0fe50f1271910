[package]
name = "qubit_sim"
version = "0.1.0"
edition = "2021"
publish = false

[dependencies]
nalgebra = { version = "0.33", default-features = false, features = ["std"] }
rand = "0.8"

[dev-dependencies]
approx = "0.5"
