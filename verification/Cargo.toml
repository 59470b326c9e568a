[package]
name = "booted"
version = "0.1.0"
edition = "2021"
publish = false

[dependencies]
rand = "0.9"
rayon = "1"
serde = { version = "1", features = ["derive"] }

[dev-dependencies]
rand_distr = "0.5"
