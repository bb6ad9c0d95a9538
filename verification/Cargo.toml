[package]
name = "inkcore"
version = "0.1.0"
edition = "2021"
publish = false

[dependencies]
rand = "0.8"
serde = { version = "1", features = ["derive"] }
anyhow = "1"
nalgebra = "0.29"
parry2d-f64 = "0.7"
once_cell = "1"
gtk4 = "0.3"
libadwaita = "=0.1.0-alpha-6"
