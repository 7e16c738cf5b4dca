[package]
name = "bioengineer"
version = "0.1.0"
edition = "2021"
publish = false

[dependencies]
clap = { version = "4", features = ["derive"] }
git-version = "0.3"
opensimplex_noise_rs = "0.3"
macroquad = { version = "0.4", default-features = false }
